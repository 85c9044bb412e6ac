//! Test/demo helpers: build a minimal sample PDF and self-signed PKCS#12 keystores.
//!
//! These exist so that the library can be tried without external fixtures. They are
//! not part of the signing/verification surface.
use core::str::FromStr;
use der::{Decode, Encode};
use core::time::Duration;
use der::asn1::GeneralizedTime;
use p12_keystore::Certificate as P12Certificate;
use p12_keystore::{KeyStore, KeyStoreEntry, PrivateKeyChain};
use rsa::pkcs8::DecodePrivateKey;
use rsa::pkcs8::{EncodePrivateKey, EncodePublicKey};
use vstd::prelude::*;
use x509_cert::builder::Builder;
use x509_cert::builder::CertificateBuilder;
use x509_cert::builder::Error as X509BuilderError;
use x509_cert::builder::Profile as X509Profile;
use x509_cert::ext::pkix::certpolicy::PolicyInformation;
use x509_cert::ext::pkix::NameConstraints as X509NameConstraints;
use x509_cert::ext::pkix::{CertificatePolicies, PolicyMapping, PolicyMappings};
use x509_cert::name::Name as X509DistinguishedName;
use x509_cert::serial_number::SerialNumber;
use x509_cert::spki::SubjectPublicKeyInfoOwned;
use x509_cert::time::Validity;

use crate::appearance::{array4, name_object, new_stream, stream_obj};
use crate::clock::unix_now;
use crate::document::{
    content_stream, encode_content, operations, save_document, saved_document, Doc, Document,
};
use crate::error::{bytes_result, crypto, plain_result, Error, ErrorView};
use crate::incremental::{be4, file_end};
use crate::keystore::{certs_end, has_ending_issuers};
use crate::object::{lemma_objs, objs, put, Dictionary, Obj, Object, ObjectId, StringFormat};
use crate::signer::{detected_kind, is_quick, keystore_of, signs_in_time, Ed25519Sig, KeyKind};
use crate::text::{arcs_fit, has_fitting_arcs};
use crate::util::{blobs, bytes_of, concat_assoc, dec, lit, push_dec, push_str, raw, to_vec};

verus! {

// ---------------------------------------------------------------------------
// A document with a cross-reference stream

/// The content stream of the sample.
pub open spec fn stream_sample_content() -> Seq<u8> {
    lit("BT /F1 24 Tf 72 720 Td (xref-stream sample) Tj ET")
}

/// The objects of the sample, the first in front.
pub open spec fn stream_sample_objects() -> Seq<Seq<u8>> {
    seq![
        lit("1 0 obj\n<< /Type /Catalog /Pages 2 0 R >>\nendobj\n"),
        lit("2 0 obj\n<< /Type /Pages /Kids [3 0 R] /Count 1 >>\nendobj\n"),
        lit(
            "3 0 obj\n<< /Type /Page /Parent 2 0 R /MediaBox [0 0 612 792] /Contents 4 0 R /Resources << /Font << /F1 5 0 R >> >> >>\nendobj\n",
        ),
        lit("4 0 obj\n<< /Length ") + dec(stream_sample_content().len()) + lit(" >>\nstream\n")
            + stream_sample_content() + lit("\nendstream\nendobj\n"),
        lit("5 0 obj\n<< /Type /Font /Subtype /Type1 /BaseFont /Helvetica >>\nendobj\n"),
    ]
}

/// The header and the first `n` objects.
pub open spec fn stream_sample_upto(n: int) -> Seq<u8>
    decreases n,
{
    if n <= 0 {
        lit("%PDF-1.5\n")
    } else {
        stream_sample_upto(n - 1) + stream_sample_objects()[n - 1]
    }
}

/// The entries of the first `n` objects in the cross-reference stream, behind that of
/// the free object zero.
pub open spec fn stream_sample_entries(n: int) -> Seq<u8>
    decreases n,
{
    if n <= 0 {
        seq![0u8, 0u8, 0u8, 0u8, 0u8, 0xffu8, 0xffu8]
    } else {
        stream_sample_entries(n - 1) + seq![1u8] + be4(stream_sample_upto(n - 1).len()) + seq![0u8, 0u8]
    }
}

/// A minimal one-page document that uses a cross-reference stream.
pub open spec fn stream_sample() -> Seq<u8> {
    stream_sample_upto(5) + lit("6 0 obj\n<< /Type /XRef /Size 7 /Root 1 0 R /W [1 4 2] /Index [0 7] /Length ") + dec(
        stream_sample_entries(6).len(),
    ) + lit(" >>\nstream\n") + stream_sample_entries(6) + lit("\nendstream\nendobj\n") + file_end(
        stream_sample_upto(5).len(),
    )
}

fn push_entry(data: &mut Vec<u8>, off: usize)
    ensures
        final(data)@ == old(data)@ + seq![1u8] + be4(off as nat) + seq![0u8, 0u8],
{
    let off: u64 = off as u64;
    data.push(1);
    data.push(((off / 0x100_0000) % 256) as u8);
    data.push(((off / 0x1_0000) % 256) as u8);
    data.push(((off / 0x100) % 256) as u8);
    data.push((off % 256) as u8);
    data.push(0);
    data.push(0);
    assert(data@ =~= old(data)@ + seq![1u8] + be4(off as nat) + seq![0u8, 0u8]);
}

fn push_sample_object(out: &mut Vec<u8>, n: u8)
    requires
        1 <= n <= 5,
        old(out)@ == stream_sample_upto(n - 1),
    ensures
        final(out)@ == stream_sample_upto(n as int),
{
    if n == 1 {
        push_str(out, "1 0 obj\n<< /Type /Catalog /Pages 2 0 R >>\nendobj\n");
    } else if n == 2 {
        push_str(out, "2 0 obj\n<< /Type /Pages /Kids [3 0 R] /Count 1 >>\nendobj\n");
    } else if n == 3 {
        push_str(
            out,
            "3 0 obj\n<< /Type /Page /Parent 2 0 R /MediaBox [0 0 612 792] /Contents 4 0 R /Resources << /Font << /F1 5 0 R >> >> >>\nendobj\n",
        );
    } else if n == 4 {
        let content: Vec<u8> = bytes_of("BT /F1 24 Tf 72 720 Td (xref-stream sample) Tj ET");
        push_str(out, "4 0 obj\n<< /Length ");
        push_dec(out, content.len() as u64);
        push_str(out, " >>\nstream\n");
        out.extend_from_slice(&content);
        push_str(out, "\nendstream\nendobj\n");
        assert(out@ == stream_sample_upto(3) + stream_sample_objects()[3]) by {
            broadcast use concat_assoc;
        }
    } else {
        push_str(out, "5 0 obj\n<< /Type /Font /Subtype /Type1 /BaseFont /Helvetica >>\nendobj\n");
    }
}

/// A minimal one-page PDF that uses a **cross-reference stream** (PDF 1.5)
/// instead of a traditional xref table, for testing the xref-stream path.
pub fn sample_pdf_xref_stream() -> (r: Vec<u8>)
    ensures
        r@ == stream_sample(),
{
    let mut out: Vec<u8> = bytes_of("%PDF-1.5\n");
    let mut data: Vec<u8> = vec![0, 0, 0, 0, 0, 0xff, 0xff];
    assert(data@ =~= stream_sample_entries(0));
    let mut n: u8 = 0;
    while n < 5
        invariant
            n <= 5,
            out@ == stream_sample_upto(n as int),
            data@ == stream_sample_entries(n as int),
        decreases 5 - n,
    {
        push_entry(&mut data, out.len());
        n = n + 1;
        push_sample_object(&mut out, n);
    }
    let xref_off: usize = out.len();
    push_entry(&mut data, xref_off);
    assert(data@ == stream_sample_entries(6));
    push_str(&mut out, "6 0 obj\n<< /Type /XRef /Size 7 /Root 1 0 R /W [1 4 2] /Index [0 7] /Length ");
    push_dec(&mut out, data.len() as u64);
    push_str(&mut out, " >>\nstream\n");
    out.extend_from_slice(&data);
    push_str(&mut out, "\nendstream\nendobj\n");
    push_str(&mut out, "startxref\n");
    push_dec(&mut out, xref_off as u64);
    push_str(&mut out, "\n%%EOF\n");
    assert(out@ == stream_sample()) by {
        broadcast use concat_assoc;
    }
    out
}

/// The sample says truly that it uses a cross-reference stream.
pub proof fn law_stream_sample_uses_stream()
    ensures
        crate::incremental::xref_stream_used(stream_sample()),
{
    let front = stream_sample_upto(5) + lit(
        "6 0 obj\n<< /Type /XRef /Size 7 /Root 1 0 R /W [1 4 2] /Index [0 7] /Length ",
    ) + dec(stream_sample_entries(6).len()) + lit(" >>\nstream\n") + stream_sample_entries(6) + lit(
        "\nendstream\nendobj\n",
    );
    let n = stream_sample_upto(5).len();
    crate::incremental::law_file_end(front, n);
    let head = lit("6 0 obj\n<< /Type /XRef /Size 7 /Root 1 0 R /W [1 4 2] /Index [0 7] /Length ");
    reveal_strlit("6 0 obj\n<< /Type /XRef /Size 7 /Root 1 0 R /W [1 4 2] /Index [0 7] /Length ");
    crate::util::lemma_lit("6 0 obj\n<< /Type /XRef /Size 7 /Root 1 0 R /W [1 4 2] /Index [0 7] /Length ");
    reveal_strlit("xref");
    crate::util::lemma_lit("xref");
    let s = stream_sample();
    let a = stream_sample_upto(5) + head;
    assert(a[n as int] == head[0]);
    assert(front[n as int] == a[n as int]);
    assert(s[n as int] == front[n as int]);
    assert(crate::util::skip_space(s, n as int) == n);
    if crate::util::occurs_at(s, lit("xref"), n as int) {
        assert(s.subrange(n as int, n as int + 4)[0] == lit("xref")[0]);
    }
}

// ---------------------------------------------------------------------------
// A document with a cross-reference table

/// The operations of the sample's content stream.
pub open spec fn sample_operations() -> Seq<(Seq<char>, Seq<Obj>)> {
    seq![
        ("BT"@, Seq::empty()),
        ("Tf"@, seq![Obj::Name(lit("F1")), Obj::Integer(24)]),
        ("Td"@, seq![Obj::Integer(72), Obj::Integer(720)]),
        ("Tj"@, seq![Obj::String(lit("pdf_signer PoC - sample document"), StringFormat::Literal)]),
        ("ET"@, Seq::empty()),
    ]
}

/// The sample document with the given content stream: pages, font, resources, content,
/// page and catalog.
pub open spec fn sample_document(content: Seq<u8>) -> Doc {
    let none = Seq::<(Seq<u8>, Obj)>::empty();
    let pages = put(
        put(
            put(none, lit("Type"), Obj::Name(lit("Pages"))),
            lit("Kids"),
            Obj::Array(seq![Obj::Reference((5u32, 0u16))]),
        ),
        lit("Count"),
        Obj::Integer(1),
    );
    let font = put(
        put(put(none, lit("Type"), Obj::Name(lit("Font"))), lit("Subtype"), Obj::Name(lit("Type1"))),
        lit("BaseFont"),
        Obj::Name(lit("Helvetica")),
    );
    let resources = put(none, lit("Font"), Obj::Dictionary(put(none, lit("F1"), Obj::Reference((2u32, 0u16)))));
    let page = put(none, lit("Type"), Obj::Name(lit("Page")));
    let page = put(page, lit("Parent"), Obj::Reference((1u32, 0u16)));
    let page = put(page, lit("Contents"), Obj::Reference((4u32, 0u16)));
    let page = put(
        page,
        lit("MediaBox"),
        Obj::Array(seq![Obj::Integer(0), Obj::Integer(0), Obj::Integer(612), Obj::Integer(792)]),
    );
    let page = put(page, lit("Resources"), Obj::Reference((3u32, 0u16)));
    let catalog = put(
        put(none, lit("Type"), Obj::Name(lit("Catalog"))),
        lit("Pages"),
        Obj::Reference((1u32, 0u16)),
    );
    Doc {
        objects: seq![
            ((1u32, 0u16), Obj::Dictionary(pages)),
            ((2u32, 0u16), Obj::Dictionary(font)),
            ((3u32, 0u16), Obj::Dictionary(resources)),
            ((4u32, 0u16), stream_obj(none, content)),
            ((5u32, 0u16), Obj::Dictionary(page)),
            ((6u32, 0u16), Obj::Dictionary(catalog)),
        ],
        trailer: put(none, lit("Root"), Obj::Reference((6u32, 0u16))),
        max_id: 6,
        pages: seq![(1u32, (5u32, 0u16))],
    }
}

/// The file of the sample document.
pub open spec fn sample_file() -> Result<Seq<u8>, ErrorView> {
    match content_stream(sample_operations()) {
        Err(t) => Err(ErrorView::Pdf(t)),
        Ok(content) => match saved_document("1.5"@, sample_document(content)) {
            Err(t) => Err(ErrorView::Pdf(t)),
            Ok(v) => Ok(v),
        },
    }
}

fn operation(operator: &str, operands: Vec<Object>) -> (r: (String, Vec<Object>))
    ensures
        (r.0@, objs(r.1@)) == (operator@, objs(operands@)),
{
    (operator.to_owned(), operands)
}

fn no_operands() -> (r: Vec<Object>)
    ensures
        objs(r@) == Seq::<Obj>::empty(),
{
    let v: Vec<Object> = Vec::new();
    assert(objs(v@) =~= Seq::empty());
    v
}

fn one_operand(a: Object) -> (r: Vec<Object>)
    ensures
        objs(r@) == seq![a@],
{
    let v: Vec<Object> = vec![a];
    proof {
        lemma_objs(v@);
        assert(objs(v@) =~= seq![a@]);
    }
    v
}

fn two_operands(a: Object, b: Object) -> (r: Vec<Object>)
    ensures
        objs(r@) == seq![a@, b@],
{
    let v: Vec<Object> = vec![a, b];
    proof {
        lemma_objs(v@);
        assert(objs(v@) =~= seq![a@, b@]);
    }
    v
}

fn sample_content() -> (r: Result<Vec<u8>, String>)
    ensures
        match content_stream(sample_operations()) {
            Ok(c) => r is Ok && r->Ok_0@ == c,
            Err(t) => r is Err && r->Err_0@ == t,
        },
{
    let text: Object = Object::String(bytes_of("pdf_signer PoC - sample document"), StringFormat::Literal);
    let ops: Vec<(String, Vec<Object>)> = vec![
        operation("BT", no_operands()),
        operation("Tf", two_operands(name_object("F1"), Object::Integer(24))),
        operation("Td", two_operands(Object::Integer(72), Object::Integer(720))),
        operation("Tj", one_operand(text)),
        operation("ET", no_operands()),
    ];
    assert(operations(ops@) =~= sample_operations());
    encode_content(&ops)
}

fn build_sample(content: Vec<u8>) -> (r: Document)
    ensures
        r@ == sample_document(content@),
{
    let mut pages: Dictionary = Dictionary::new();
    pages.set("Type", name_object("Pages"));
    pages.set("Kids", Object::Array(one_operand(Object::Reference((5, 0)))));
    pages.set("Count", Object::Integer(1));

    let mut font: Dictionary = Dictionary::new();
    font.set("Type", name_object("Font"));
    font.set("Subtype", name_object("Type1"));
    font.set("BaseFont", name_object("Helvetica"));

    let mut fonts: Dictionary = Dictionary::new();
    fonts.set("F1", Object::Reference((2, 0)));
    let mut resources: Dictionary = Dictionary::new();
    resources.set("Font", Object::Dictionary(fonts));

    let mut page: Dictionary = Dictionary::new();
    page.set("Type", name_object("Page"));
    page.set("Parent", Object::Reference((1, 0)));
    page.set("Contents", Object::Reference((4, 0)));
    page.set(
        "MediaBox",
        array4(Object::Integer(0), Object::Integer(0), Object::Integer(612), Object::Integer(792)),
    );
    page.set("Resources", Object::Reference((3, 0)));

    let mut catalog: Dictionary = Dictionary::new();
    catalog.set("Type", name_object("Catalog"));
    catalog.set("Pages", Object::Reference((1, 0)));

    let mut trailer: Dictionary = Dictionary::new();
    trailer.set("Root", Object::Reference((6, 0)));
    let objects: Vec<(ObjectId, Object)> = vec![
        ((1, 0), Object::Dictionary(pages)),
        ((2, 0), Object::Dictionary(font)),
        ((3, 0), Object::Dictionary(resources)),
        ((4, 0), new_stream(Dictionary::new(), content)),
        ((5, 0), Object::Dictionary(page)),
        ((6, 0), Object::Dictionary(catalog)),
    ];
    let doc: Document = Document { objects, trailer, max_id: 6, pages: vec![(1, (5, 0))] };
    proof {
        assert(doc@.objects =~= sample_document(content@).objects);
        assert(doc@.pages =~= sample_document(content@).pages);
    }
    doc
}

/// Build a minimal, valid one-page PDF with a line of text.
pub fn sample_pdf() -> (r: Result<Vec<u8>, Error>)
    ensures
        bytes_result(r) == sample_file(),
{
    match sample_content() {
        Err(t) => Err(Error::Pdf(t)),
        Ok(content) => match save_document("1.5", &build_sample(content)) {
            Err(t) => Err(Error::Pdf(t)),
            Ok(v) => Ok(v),
        },
    }
}

// ---------------------------------------------------------------------------
// An image

/// The PNG of eight-bit RGBA pixels, or why there is none.
pub uninterp spec fn encoded_png(width: u32, height: u32, pixels: Seq<u8>) -> Result<Seq<u8>, Seq<char>>;

/// Encodes a PNG: `png::Encoder` with colour type `Rgba` and eight bits.
#[verifier::external_body]
fn encode_png(width: u32, height: u32, pixels: &[u8]) -> (r: Result<Vec<u8>, String>)
    requires
        pixels@.len() == 4 * width * height,
    ensures
        match r {
            Ok(v) => encoded_png(width, height, pixels@) == Ok::<Seq<u8>, Seq<char>>(v@),
            Err(t) => encoded_png(width, height, pixels@) == Err::<Seq<u8>, Seq<char>>(t@),
        },
{
    let mut out = Vec::new();
    let mut encoder = png::Encoder::new(&mut out, width, height);
    encoder.set_color(png::ColorType::Rgba);
    encoder.set_depth(png::BitDepth::Eight);
    let mut writer = encoder.write_header().map_err(|e| e.to_string())?;
    writer.write_image_data(pixels).map_err(|e| e.to_string())?;
    writer.finish().map_err(|e| e.to_string())?;
    Ok(out)
}

/// Opaque red pixels.
pub open spec fn red_pixels(n: nat) -> Seq<u8>
    decreases n,
{
    if n == 0 {
        Seq::empty()
    } else {
        red_pixels((n - 1) as nat) + seq![220u8, 30u8, 30u8, 255u8]
    }
}

/// A tiny 4×4 RGBA PNG (opaque red), for testing image appearances.
pub fn tiny_png() -> (r: Result<Vec<u8>, Error>)
    ensures
        bytes_result(r) == (match encoded_png(4, 4, red_pixels(16)) {
            Err(t) => Err(ErrorView::Malformed(t)),
            Ok(v) => Ok(v),
        }),
{
    let mut pixels: Vec<u8> = Vec::new();
    let mut n: u32 = 0;
    while n < 16
        invariant
            n <= 16,
            pixels@.len() == 4 * n,
            pixels@ == red_pixels(n as nat),
        decreases 16 - n,
    {
        let ghost before = pixels@;
        pixels.push(220);
        pixels.push(30);
        pixels.push(30);
        pixels.push(255);
        assert(pixels@ =~= before + seq![220u8, 30u8, 30u8, 255u8]);
        n = n + 1;
    }
    match encode_png(4, 4, &pixels) {
        Err(t) => Err(Error::Malformed(t)),
        Ok(v) => Ok(v),
    }
}

// ---------------------------------------------------------------------------
// Certificates

/// What a certificate is for.
#[derive(Debug)]
pub enum CertProfile {
    /// A self-signed root.
    Root,
    /// A certification authority below the named issuer.
    SubCa { issuer: String, path_len: Option<u8> },
    /// An end entity below the named issuer, whose key may be used for the agreement on
    /// keys and for enciphering them.
    Leaf { issuer: String, key_agreement: bool, key_encipherment: bool },
}

/// An extension of a certificate.
#[derive(Debug)]
pub enum CertExtension {
    /// Name constraints that permit the named subtree alone.
    Permitted(String),
    /// Name constraints that exclude the named subtree.
    Excluded(String),
    /// A certificate policy.
    Policy(String),
    /// A policy mapping, issuer domain first.
    Mapping(String, String),
}

/// What a certificate is made from, besides the keys.
#[derive(Debug)]
pub struct CertForm {
    pub profile: CertProfile,
    pub serial: u32,
    /// Seconds since the Unix epoch.
    pub not_before: u64,
    pub not_after: u64,
    pub subject: String,
    pub extensions: Vec<CertExtension>,
}

/// The purpose of a certificate as a mathematical value.
pub enum ProfileView {
    Root,
    SubCa { issuer: Seq<char>, path_len: Option<u8> },
    Leaf { issuer: Seq<char>, key_agreement: bool, key_encipherment: bool },
}

/// An extension as a mathematical value.
pub enum ExtensionView {
    Permitted(Seq<char>),
    Excluded(Seq<char>),
    Policy(Seq<char>),
    Mapping(Seq<char>, Seq<char>),
}

/// What a certificate is made from, as a mathematical value.
pub struct CertFormView {
    pub profile: ProfileView,
    pub serial: u32,
    pub not_before: u64,
    pub not_after: u64,
    pub subject: Seq<char>,
    pub extensions: Seq<ExtensionView>,
}

impl CertProfile {
    pub open spec fn view(&self) -> ProfileView {
        match *self {
            CertProfile::Root => ProfileView::Root,
            CertProfile::SubCa { issuer, path_len } => ProfileView::SubCa { issuer: issuer@, path_len },
            CertProfile::Leaf { issuer, key_agreement, key_encipherment } => ProfileView::Leaf {
                issuer: issuer@,
                key_agreement,
                key_encipherment,
            },
        }
    }
}

impl CertExtension {
    pub open spec fn view(&self) -> ExtensionView {
        match *self {
            CertExtension::Permitted(n) => ExtensionView::Permitted(n@),
            CertExtension::Excluded(n) => ExtensionView::Excluded(n@),
            CertExtension::Policy(p) => ExtensionView::Policy(p@),
            CertExtension::Mapping(i, s) => ExtensionView::Mapping(i@, s@),
        }
    }
}

/// The views of extensions.
pub open spec fn extension_views(v: Seq<CertExtension>) -> Seq<ExtensionView> {
    Seq::new(v.len(), |i: int| v[i]@)
}

impl CertForm {
    pub open spec fn view(&self) -> CertFormView {
        CertFormView {
            profile: self.profile@,
            serial: self.serial,
            not_before: self.not_before,
            not_after: self.not_after,
            subject: self.subject@,
            extensions: extension_views(self.extensions@),
        }
    }
}

/// The names in the purpose of a certificate can be read.
pub open spec fn profile_fits(p: ProfileView) -> bool {
    match p {
        ProfileView::Root => true,
        ProfileView::SubCa { issuer, .. } => arcs_fit(issuer),
        ProfileView::Leaf { issuer, .. } => arcs_fit(issuer),
    }
}

/// The names and the identifiers in an extension can be read.
pub open spec fn extension_fits(e: ExtensionView) -> bool {
    match e {
        ExtensionView::Permitted(n) => arcs_fit(n),
        ExtensionView::Excluded(n) => arcs_fit(n),
        ExtensionView::Policy(p) => arcs_fit(p),
        ExtensionView::Mapping(i, s) => arcs_fit(i) && arcs_fit(s),
    }
}

/// The object identifiers in what a certificate is made from can be read.
pub open spec fn form_fits(form: CertFormView) -> bool {
    &&& profile_fits(form.profile)
    &&& arcs_fit(form.subject)
    &&& forall|i: int| 0 <= i < form.extensions.len() ==> extension_fits(#[trigger] form.extensions[i])
}

fn fits(form: &CertForm) -> (r: bool)
    ensures
        r == form_fits(form@),
{
    let named: bool = match &form.profile {
        CertProfile::Root => true,
        CertProfile::SubCa { issuer, .. } => has_fitting_arcs(issuer.as_str()),
        CertProfile::Leaf { issuer, .. } => has_fitting_arcs(issuer.as_str()),
    };
    if !named || !has_fitting_arcs(form.subject.as_str()) {
        return false;
    }
    let mut i: usize = 0;
    while i < form.extensions.len()
        invariant
            i <= form.extensions.len(),
            profile_fits(form@.profile) && arcs_fit(form@.subject),
            forall|k: int| 0 <= k < i ==> extension_fits(#[trigger] form@.extensions[k]),
        decreases form.extensions.len() - i,
    {
        assert(form@.extensions[i as int] == form.extensions@[i as int]@);
        let fit: bool = match &form.extensions[i] {
            CertExtension::Permitted(n) => has_fitting_arcs(n.as_str()),
            CertExtension::Excluded(n) => has_fitting_arcs(n.as_str()),
            CertExtension::Policy(p) => has_fitting_arcs(p.as_str()),
            CertExtension::Mapping(a, b) => has_fitting_arcs(a.as_str()) && has_fitting_arcs(b.as_str()),
        };
        if !fit {
            return false;
        }
        i += 1;
    }
    true
}

/// A certificate profile of the `x509_cert` crate.
#[verifier::external_type_specification]
#[verifier::external_body]
pub struct ExProfile(X509Profile);

/// An error of the certificate builder of the `x509_cert` crate.
#[verifier::external_type_specification]
#[verifier::external_body]
pub struct ExX509BuilderError(X509BuilderError);

/// Name constraints of the `x509_cert` crate.
#[verifier::external_type_specification]
#[verifier::external_body]
pub struct ExNameConstraints(X509NameConstraints);

/// Certificate policies of the `x509_cert` crate.
#[verifier::external_type_specification]
#[verifier::external_body]
pub struct ExCertificatePolicies(CertificatePolicies);

/// Policy mappings of the `x509_cert` crate.
#[verifier::external_type_specification]
#[verifier::external_body]
pub struct ExPolicyMappings(PolicyMappings);

/// The certificate builder of the `x509_cert` crate.
#[verifier::external_type_specification]
#[verifier::external_body]
#[verifier::reject_recursive_types(S)]
pub struct ExCertificateBuilder<'s, S>(CertificateBuilder<'s, S>);

/// Hands a profile to `x509_cert`, variant by variant. Nothing is claimed of it here:
/// the functions that make certificates name what they return.
#[verifier::external_body]
fn profile_of(p: &CertProfile) -> Result<X509Profile, X509BuilderError>
    requires
        profile_fits(p@),
{
    Ok(match p {
        CertProfile::Root => X509Profile::Root,
        CertProfile::SubCa { issuer, path_len } => {
            X509Profile::SubCA { issuer: X509DistinguishedName::from_str(issuer)?, path_len_constraint: *path_len }
        },
        CertProfile::Leaf { issuer, key_agreement, key_encipherment } => X509Profile::Leaf {
            issuer: X509DistinguishedName::from_str(issuer)?,
            enable_key_agreement: *key_agreement,
            enable_key_encipherment: *key_encipherment,
        },
    })
}

/// Name constraints of `x509_cert` with one subtree, permitted or excluded. Nothing is
/// claimed of it here: the functions that make certificates name what they return.
#[verifier::external_body]
fn constraints_of(permitted: Option<&String>, excluded: Option<&String>) -> Result<X509NameConstraints, X509BuilderError>
    requires
        permitted matches Some(n) ==> arcs_fit(n@),
        excluded matches Some(n) ==> arcs_fit(n@),
{
    let subtree = |n: &String| -> Result<_, X509BuilderError> {
        let base = x509_cert::ext::pkix::name::GeneralName::DirectoryName(X509DistinguishedName::from_str(n)?);
        Ok(vec![x509_cert::ext::pkix::constraints::name::GeneralSubtree { base, minimum: 0, maximum: None }])
    };
    Ok(X509NameConstraints {
        permitted_subtrees: permitted.map(subtree).transpose()?,
        excluded_subtrees: excluded.map(subtree).transpose()?,
    })
}

/// Certificate policies of `x509_cert` with one policy, given in dotted notation.
/// Nothing is claimed of it here: the functions that make certificates name what they
/// return.
#[verifier::external_body]
fn policies_of(policy: &str) -> Result<CertificatePolicies, X509BuilderError>
    requires
        arcs_fit(policy@),
{
    let policy_identifier = const_oid::ObjectIdentifier::new(policy).map_err(der::Error::from)?;
    Ok(CertificatePolicies(vec![PolicyInformation { policy_identifier, policy_qualifiers: None }]))
}

/// Policy mappings of `x509_cert` with one mapping, given in dotted notation. Nothing
/// is claimed of it here: the functions that make certificates name what they return.
#[verifier::external_body]
fn mappings_of(issuer: &str, subject: &str) -> Result<PolicyMappings, X509BuilderError>
    requires
        arcs_fit(issuer@),
        arcs_fit(subject@),
{
    let issuer_domain_policy = const_oid::ObjectIdentifier::new(issuer).map_err(der::Error::from)?;
    let subject_domain_policy = const_oid::ObjectIdentifier::new(subject).map_err(der::Error::from)?;
    Ok(PolicyMappings(vec![PolicyMapping { issuer_domain_policy, subject_domain_policy }]))
}

/// Adds an extension to a certificate that is being built: `add_extension` of
/// `x509_cert::builder::CertificateBuilder`. Nothing is claimed of it here: the
/// functions that make certificates name what they return.
#[verifier::external_body]
fn add_extension<S>(builder: &mut CertificateBuilder<'_, S>, e: &CertExtension) -> Result<(), X509BuilderError> where
    S: signature::Keypair + spki::DynSignatureAlgorithmIdentifier,
    S::VerifyingKey: spki::EncodePublicKey,

    requires
        extension_fits(e@),
{
    match e {
        CertExtension::Permitted(n) => builder.add_extension(&constraints_of(Some(n), None)?),
        CertExtension::Excluded(n) => builder.add_extension(&constraints_of(None, Some(n))?),
        CertExtension::Policy(p) => builder.add_extension(&policies_of(p)?),
        CertExtension::Mapping(i, s) => builder.add_extension(&mappings_of(i, s)?),
    }
}

/// Builds a certificate with `x509_cert::builder::CertificateBuilder`, for any key
/// (PKCS#8) that it takes. Nothing is claimed of it here: its callers name what they get for each kind
/// of key.
#[verifier::external_body]
fn build_certificate<S, Sig>(
    signer: &[u8],
    info: &[u8],
    form: &CertForm,
) -> Result<Vec<u8>, X509BuilderError> where
    S: DecodePrivateKey + signature::Keypair + spki::DynSignatureAlgorithmIdentifier + signature::Signer<Sig>,
    S::VerifyingKey: spki::EncodePublicKey,
    Sig: spki::SignatureBitStringEncoding,

    requires
        form_fits(form@),
        signs_in_time(signer@),
{
    let not_before = GeneralizedTime::from_unix_duration(Duration::from_secs(form.not_before))?.into();
    let not_after = GeneralizedTime::from_unix_duration(Duration::from_secs(form.not_after))?.into();
    let validity = Validity { not_before, not_after };
    let profile = profile_of(&form.profile)?;
    let subject = X509DistinguishedName::from_str(&form.subject)?;
    let serial = SerialNumber::from(form.serial);
    let info = SubjectPublicKeyInfoOwned::from_der(info)?;
    let signer = S::from_pkcs8_der(signer).map_err(|_| spki::Error::KeyMalformed)?;
    let mut builder = CertificateBuilder::new(profile, serial, validity, subject, info, &signer)?;
    for e in &form.extensions {
        add_extension(&mut builder, e)?;
    }
    Ok(builder.build::<Sig>()?.to_der()?)
}

/// A private key (PKCS#8) is of a kind.
pub open spec fn is_of_kind(key: Seq<u8>, kind: KeyKind) -> bool {
    detected_kind(key) == Ok::<KeyKind, ErrorView>(kind)
}

/// A fresh RSA private key of 2048 bits in PKCS#8, from the system's random numbers:
/// `rsa::RsaPrivateKey::new` and `to_pkcs8_der`. The algorithm that the
/// encoding names is that of the key; of its value nothing is promised.
#[verifier::external_body]
fn generate_rsa() -> (r: Result<Vec<u8>, String>)
    ensures
        r matches Ok(key) ==> is_of_kind(key@, KeyKind::Rsa),
{
    let key = rsa::RsaPrivateKey::new(&mut rand::thread_rng(), 2048).map_err(|e| e.to_string())?;
    key.to_pkcs8_der().map(|d| d.as_bytes().to_vec()).map_err(|e| e.to_string())
}

/// The certificate that an RSA key (PKCS#8) makes for the owner of another, in DER, or
/// why it makes none.
pub uninterp spec fn rsa_certificate(signer: Seq<u8>, key: Seq<u8>, form: CertFormView) -> Result<
    Seq<u8>,
    Seq<char>,
>;

/// Makes a certificate for an RSA key, signed by another: `rsa::pkcs1v15::SigningKey`
/// with SHA-256, and the `CertificateBuilder` of the `x509_cert` crate.
#[verifier::external_body]
fn certify_rsa(signer: &[u8], key: &[u8], form: &CertForm) -> (r: Result<Vec<u8>, String>)
    requires
        form_fits(form@),
        signs_in_time(signer@),
    ensures
        match r {
            Ok(v) => rsa_certificate(signer@, key@, form@) == Ok::<Seq<u8>, Seq<char>>(v@),
            Err(t) => rsa_certificate(signer@, key@, form@) == Err::<Seq<u8>, Seq<char>>(t@),
        },
{
    let owner = rsa::RsaPrivateKey::from_pkcs8_der(key).map_err(|e| e.to_string())?;
    let info = owner.to_public_key().to_public_key_der().map_err(|e| e.to_string())?;
    build_certificate::<rsa::pkcs1v15::SigningKey<sha2::Sha256>, rsa::pkcs1v15::Signature>(signer, info.as_bytes(), form)
        .map_err(|e| e.to_string())
}

/// A fresh P-256 private key in PKCS#8, from the system's random numbers:
/// `p256::ecdsa::SigningKey::random` and `to_pkcs8_der`. The algorithm that the
/// encoding names is that of the key; of its value nothing is promised.
#[verifier::external_body]
fn generate_p256() -> (r: Result<Vec<u8>, String>)
    ensures
        r matches Ok(key) ==> is_of_kind(key@, KeyKind::P256),
{
    let key = p256::ecdsa::SigningKey::random(&mut rand::thread_rng());
    key.to_pkcs8_der().map(|d| d.as_bytes().to_vec()).map_err(|e| e.to_string())
}

/// The certificate that a P-256 key makes of itself, in DER, or why it makes none.
pub uninterp spec fn p256_certificate(key: Seq<u8>, form: CertFormView) -> Result<Seq<u8>, Seq<char>>;

/// Makes a certificate with a P-256 key, signed by itself: `p256::ecdsa::SigningKey`,
/// and the `CertificateBuilder` of the `x509_cert` crate.
#[verifier::external_body]
fn certify_p256(key: &[u8], form: &CertForm) -> (r: Result<Vec<u8>, String>)
    requires
        form_fits(form@),
        signs_in_time(key@),
    ensures
        match r {
            Ok(v) => p256_certificate(key@, form@) == Ok::<Seq<u8>, Seq<char>>(v@),
            Err(t) => p256_certificate(key@, form@) == Err::<Seq<u8>, Seq<char>>(t@),
        },
{
    let secret = p256::SecretKey::from_pkcs8_der(key).map_err(|e| e.to_string())?;
    let signer = p256::ecdsa::SigningKey::from(secret);
    let info = signer.verifying_key().to_public_key_der().map_err(|e| e.to_string())?;
    build_certificate::<p256::ecdsa::SigningKey, p256::ecdsa::DerSignature>(key, info.as_bytes(), form).map_err(|e| e.to_string())
}

/// A fresh P-384 private key in PKCS#8, from the system's random numbers:
/// `p384::ecdsa::SigningKey::random` and `to_pkcs8_der`. The algorithm that the
/// encoding names is that of the key; of its value nothing is promised.
#[verifier::external_body]
fn generate_p384() -> (r: Result<Vec<u8>, String>)
    ensures
        r matches Ok(key) ==> is_of_kind(key@, KeyKind::P384),
{
    let key = p384::ecdsa::SigningKey::random(&mut rand::thread_rng());
    key.to_pkcs8_der().map(|d| d.as_bytes().to_vec()).map_err(|e| e.to_string())
}

/// The certificate that a P-384 key makes of itself, in DER, or why it makes none.
pub uninterp spec fn p384_certificate(key: Seq<u8>, form: CertFormView) -> Result<Seq<u8>, Seq<char>>;

/// Makes a certificate with a P-384 key, signed by itself: `p384::ecdsa::SigningKey`,
/// and the `CertificateBuilder` of the `x509_cert` crate.
#[verifier::external_body]
fn certify_p384(key: &[u8], form: &CertForm) -> (r: Result<Vec<u8>, String>)
    requires
        form_fits(form@),
        signs_in_time(key@),
    ensures
        match r {
            Ok(v) => p384_certificate(key@, form@) == Ok::<Seq<u8>, Seq<char>>(v@),
            Err(t) => p384_certificate(key@, form@) == Err::<Seq<u8>, Seq<char>>(t@),
        },
{
    let secret = p384::SecretKey::from_pkcs8_der(key).map_err(|e| e.to_string())?;
    let signer = p384::ecdsa::SigningKey::from(secret);
    let info = signer.verifying_key().to_public_key_der().map_err(|e| e.to_string())?;
    build_certificate::<p384::ecdsa::SigningKey, p384::ecdsa::DerSignature>(key, info.as_bytes(), form).map_err(|e| e.to_string())
}

/// A fresh Ed25519 private key in PKCS#8, from the system's random numbers:
/// `ed25519_dalek::SigningKey::generate` and `to_pkcs8_der`. The algorithm that the
/// encoding names is that of the key; of its value nothing is promised.
#[verifier::external_body]
fn generate_ed25519() -> (r: Result<Vec<u8>, String>)
    ensures
        r matches Ok(key) ==> is_of_kind(key@, KeyKind::Ed25519),
{
    let key = ed25519_dalek::SigningKey::generate(&mut rand::thread_rng());
    key.to_pkcs8_der().map(|d| d.as_bytes().to_vec()).map_err(|e| e.to_string())
}

/// The certificate that an Ed25519 key makes of itself, in DER, or why it makes none.
pub uninterp spec fn ed25519_certificate(key: Seq<u8>, form: CertFormView) -> Result<Seq<u8>, Seq<char>>;

/// Makes a certificate with an Ed25519 key, signed by itself:
/// `ed25519_dalek::SigningKey`, and the `CertificateBuilder` of the `x509_cert` crate.
#[verifier::external_body]
fn certify_ed25519(key: &[u8], form: &CertForm) -> (r: Result<Vec<u8>, String>)
    requires
        form_fits(form@),
        signs_in_time(key@),
    ensures
        match r {
            Ok(v) => ed25519_certificate(key@, form@) == Ok::<Seq<u8>, Seq<char>>(v@),
            Err(t) => ed25519_certificate(key@, form@) == Err::<Seq<u8>, Seq<char>>(t@),
        },
{
    let signer = ed25519_dalek::SigningKey::from_pkcs8_der(key).map_err(|e| e.to_string())?;
    let info = signer.verifying_key().to_public_key_der().map_err(|e| e.to_string())?;
    build_certificate::<ed25519_dalek::SigningKey, Ed25519Sig>(key, info.as_bytes(), form).map_err(|e| e.to_string())
}

/// The certificate that a key of a kind makes for the owner of another, an RSA key, or of
/// itself: what it is made from can be read, and the signature is made in good time.
pub open spec fn issued_certificate(kind: KeyKind, signer: Seq<u8>, key: Seq<u8>, form: CertFormView) -> Result<
    Seq<u8>,
    Seq<char>,
> {
    if !form_fits(form) {
        Err("object identifier out of range"@)
    } else if !signs_in_time(signer) {
        Err("the primes of the key differ too much in length"@)
    } else {
        match kind {
            KeyKind::Rsa => rsa_certificate(signer, key, form),
            KeyKind::P256 => p256_certificate(signer, form),
            KeyKind::P384 => p384_certificate(signer, form),
            KeyKind::Ed25519 => ed25519_certificate(signer, form),
        }
    }
}

/// Makes a certificate with a key of a kind: for the owner of another, an RSA key, or of
/// itself.
fn certify(kind: KeyKind, signer: &[u8], key: &[u8], form: &CertForm) -> (r: Result<Vec<u8>, String>)
    ensures
        written_result(r) == issued_certificate(kind, signer@, key@, form@),
{
    if !fits(form) {
        return Err("object identifier out of range".to_owned());
    }
    if !is_quick(signer) {
        return Err("the primes of the key differ too much in length".to_owned());
    }
    match kind {
        KeyKind::Rsa => certify_rsa(signer, key, form),
        KeyKind::P256 => certify_p256(signer, form),
        KeyKind::P384 => certify_p384(signer, form),
        KeyKind::Ed25519 => certify_ed25519(signer, form),
    }
}

// ---------------------------------------------------------------------------
// Keystores

/// Whether a keystore gives back, under the password, the key and the first of the
/// certificates; where they are more, only certificates among them.
pub open spec fn stored(p12: Seq<u8>, password: Seq<char>, key: Seq<u8>, certs: Seq<Seq<u8>>) -> bool {
    match keystore_of(p12, password) {
        Ok(Some(chain)) => {
            &&& chain.key == key
            &&& chain.certs.len() > 0
            &&& chain.certs[0] == certs[0]
            &&& forall|i: int| 0 <= i < chain.certs.len() ==> certs.contains(#[trigger] chain.certs[i])
            &&& certs.len() == 1 ==> chain.certs == certs
        },
        _ => false,
    }
}

/// Writes a keystore with one key and its certificates, the owner's in front:
/// `p12_keystore::KeyStore::writer`. It encrypts with random salts, so the bytes are
/// open; what is written opens again, under the password, to the key and the owner's
/// certificate, where following issuers from that one through the others comes to an end.
/// Of the others, opening takes those that it reaches by their issuers' names, which is
/// not stated.
#[verifier::external_body]
fn write_keystore(password: &str, alias: &str, key_id: &[u8], key: &[u8], certs: &Vec<Vec<u8>>) -> (r: Result<
    Vec<u8>,
    String,
>)
    ensures
        r matches Ok(v) ==> certs@.len() > 0 && certs_end(blobs(certs@)) ==> stored(
            v@,
            password@,
            key@,
            blobs(certs@),
        ),
{
    let mut chain = Vec::new();
    for c in certs {
        chain.push(P12Certificate::from_der(c).map_err(|e| e.to_string())?);
    }
    let entry = KeyStoreEntry::PrivateKeyChain(PrivateKeyChain::new(key, key_id, chain));
    let mut store = KeyStore::new();
    store.add_entry(alias, entry);
    store.writer(password).write().map_err(|e| e.to_string())
}

/// Writes a keystore with one key and its certificates, the owner's in front. What is
/// written opens again, under the password, to the key and the owner's certificate.
fn write_chain(password: &str, key: &[u8], certs: &Vec<Vec<u8>>) -> (r: Result<Vec<u8>, String>)
    ensures
        r matches Ok(v) ==> certs@.len() > 0 ==> stored(v@, password@, key@, blobs(certs@)),
{
    if !has_ending_issuers(certs) {
        return Err("certificates issue one another".to_owned());
    }
    write_keystore(password, "poc", raw("poc"), key, certs)
}

/// The seconds in the year that the certificates here are valid for.
pub const YEAR: u64 = 31_536_000;

/// The form of a certificate that is valid from `now` for a year.
pub open spec fn year_form(
    profile: ProfileView,
    serial: u32,
    now: u64,
    subject: Seq<char>,
    extensions: Seq<ExtensionView>,
) -> CertFormView {
    CertFormView {
        profile,
        serial,
        not_before: now,
        not_after: (now + YEAR) as u64,
        subject,
        extensions,
    }
}

fn new_form(
    profile: CertProfile,
    serial: u32,
    now: u64,
    subject: &str,
    extensions: Vec<CertExtension>,
) -> (r: CertForm)
    requires
        now + YEAR <= u64::MAX,
    ensures
        r@ == year_form(profile@, serial, now, subject@, extension_views(extensions@)),
{
    CertForm { profile, serial, not_before: now, not_after: now + YEAR, subject: subject.to_owned(), extensions }
}

/// A result whose error comes from the certificate or keystore libraries.
pub open spec fn crypto_result(r: Result<Seq<u8>, Seq<char>>) -> Result<Seq<u8>, ErrorView> {
    match r {
        Ok(v) => Ok(v),
        Err(t) => Err(ErrorView::Crypto(t)),
    }
}

fn or_crypto(r: Result<Vec<u8>, String>) -> (out: Result<Vec<u8>, Error>)
    ensures
        match r {
            Ok(v) => out is Ok && out->Ok_0@ == v@,
            Err(t) => out is Err && out->Err_0@ == ErrorView::Crypto(t@),
        },
{
    match r {
        Ok(v) => Ok(v),
        Err(t) => Err(Error::Crypto(t)),
    }
}

/// The time for which certificates are made, from what the clock gives: early enough for
/// their year to end.
pub open spec fn issue_time_of(clock: Result<u64, Seq<char>>) -> Result<u64, ErrorView> {
    match clock {
        Err(t) => Err(ErrorView::Crypto(t)),
        Ok(now) => if now + YEAR <= u64::MAX {
            Ok(now)
        } else {
            Err(ErrorView::Crypto("clock out of range"@))
        },
    }
}

/// The view of what the clock gives.
pub open spec fn clock_result(r: Result<u64, String>) -> Result<u64, Seq<char>> {
    match r {
        Ok(now) => Ok(now),
        Err(t) => Err(t@),
    }
}

/// The time for which certificates are made, from what the clock gives (seconds since
/// the Unix epoch).
pub fn issue_time_from(clock: Result<u64, String>) -> (r: Result<u64, Error>)
    ensures
        plain_result(r) == issue_time_of(clock_result(clock)),
{
    match clock {
        Err(t) => Err(Error::Crypto(t)),
        Ok(now) => if now <= u64::MAX - YEAR {
            Ok(now)
        } else {
            Err(crypto("clock out of range"))
        },
    }
}

/// A time for which certificates are made is what something that the clock may give
/// leads to.
pub open spec fn from_clock(r: Result<u64, ErrorView>) -> bool {
    exists|clock: Result<u64, Seq<char>>| r == #[trigger] issue_time_of(clock)
}

/// The time for which the certificates are made: the current time, which is not known
/// here.
fn issue_time() -> (r: Result<u64, Error>)
    ensures
        from_clock(plain_result(r)),
{
    let clock: Result<u64, String> = unix_now();
    let ghost given = clock_result(clock);
    let r: Result<u64, Error> = issue_time_from(clock);
    assert(plain_result(r) == issue_time_of(given));
    r
}

/// A certificate that a key makes of itself: a root with serial number one, valid from
/// `now` for a year.
pub open spec fn self_signed(kind: KeyKind, key: Seq<u8>, subject: Seq<char>, now: u64) -> Result<Seq<u8>, ErrorView> {
    let form = year_form(ProfileView::Root, 1, now, subject, Seq::empty());
    crypto_result(issued_certificate(kind, key, key, form))
}

/// Makes a self-signed certificate of a private key (PKCS#8), valid from `now` (seconds
/// since the Unix epoch) for a year.
pub fn self_signed_certificate(kind: KeyKind, key: &[u8], subject: &str, now: u64) -> (r: Result<Vec<u8>, Error>)
    requires
        now + YEAR <= u64::MAX,
    ensures
        bytes_result(r) == self_signed(kind, key@, subject@, now),
{
    let form: CertForm = new_form(CertProfile::Root, 1, now, subject, no_extensions());
    or_crypto(certify(kind, key, key, &form))
}

fn no_extensions() -> (r: Vec<CertExtension>)
    ensures
        extension_views(r@) == Seq::<ExtensionView>::empty(),
{
    let v: Vec<CertExtension> = Vec::new();
    assert(extension_views(v@) =~= Seq::empty());
    v
}

fn one_extension(e: CertExtension) -> (r: Vec<CertExtension>)
    ensures
        extension_views(r@) == seq![e@],
{
    let v: Vec<CertExtension> = vec![e];
    assert(extension_views(v@) =~= seq![e@]);
    v
}

/// Whether a keystore holds a key and the certificate that the key makes of itself.
pub open spec fn self_signed_store(
    p12: Seq<u8>,
    password: Seq<char>,
    kind: KeyKind,
    key: Seq<u8>,
    subject: Seq<char>,
    now: u64,
) -> bool {
    match self_signed(kind, key, subject, now) {
        Ok(cert) => stored(p12, password, key, seq![cert]),
        Err(_) => false,
    }
}

/// Whether a keystore holds some key of the kind and a certificate that it makes of
/// itself at some time.
pub open spec fn holds_self_signed(p12: Seq<u8>, password: Seq<char>, kind: KeyKind, subject: Seq<char>) -> bool {
    exists|key: Seq<u8>, now: u64| #[trigger] self_signed_store(p12, password, kind, key, subject, now)
}

/// What drawing a key of a kind gives: a key of that kind, or an error of the library
/// that makes it.
pub open spec fn drawn(kind: KeyKind, key: Result<Seq<u8>, ErrorView>) -> bool {
    match key {
        Ok(k) => is_of_kind(k, kind),
        Err(e) => e is Crypto,
    }
}

/// Draws a fresh key of a kind.
fn generate(kind: KeyKind) -> (r: Result<Vec<u8>, Error>)
    ensures
        drawn(kind, bytes_result(r)),
{
    or_crypto(
        match kind {
            KeyKind::Rsa => generate_rsa(),
            KeyKind::P256 => generate_p256(),
            KeyKind::P384 => generate_p384(),
            KeyKind::Ed25519 => generate_ed25519(),
        },
    )
}

/// The keystore with a self-signed certificate, given the key that was drawn, what the
/// clock gave and what writing the keystore gave: the first error, or what was written.
pub open spec fn self_signed_outcome(
    kind: KeyKind,
    subject: Seq<char>,
    key: Result<Seq<u8>, ErrorView>,
    clock: Result<u64, Seq<char>>,
    written: Result<Seq<u8>, Seq<char>>,
) -> Result<Seq<u8>, ErrorView> {
    match key {
        Err(e) => Err(e),
        Ok(k) => match issue_time_of(clock) {
            Err(e) => Err(e),
            Ok(now) => match self_signed(kind, k, subject, now) {
                Err(e) => Err(e),
                Ok(_) => crypto_result(written),
            },
        },
    }
}

/// What was written for a self-signed certificate opens to the key and the certificate.
pub open spec fn self_signed_written(
    password: Seq<char>,
    kind: KeyKind,
    subject: Seq<char>,
    key: Result<Seq<u8>, ErrorView>,
    clock: Result<u64, Seq<char>>,
    written: Result<Seq<u8>, Seq<char>>,
) -> bool {
    match (key, issue_time_of(clock), written) {
        (Ok(k), Ok(now), Ok(p12)) => match self_signed(kind, k, subject, now) {
            Ok(cert) => stored(p12, password, k, seq![cert]),
            Err(_) => true,
        },
        _ => true,
    }
}

/// A result is the outcome for a key, a time and a written keystore.
pub open spec fn self_signed_run(
    r: Result<Seq<u8>, ErrorView>,
    password: Seq<char>,
    kind: KeyKind,
    subject: Seq<char>,
    key: Result<Seq<u8>, ErrorView>,
    clock: Result<u64, Seq<char>>,
    written: Result<Seq<u8>, Seq<char>>,
) -> bool {
    &&& drawn(kind, key)
    &&& self_signed_written(password, kind, subject, key, clock, written)
    &&& r == self_signed_outcome(kind, subject, key, clock, written)
}

/// A result is the outcome for some key of the kind, some time and some keystore written
/// for them.
pub open spec fn self_signed_made(
    r: Result<Seq<u8>, ErrorView>,
    password: Seq<char>,
    kind: KeyKind,
    subject: Seq<char>,
) -> bool {
    exists|key: Result<Seq<u8>, ErrorView>, clock: Result<u64, Seq<char>>, written: Result<Seq<u8>, Seq<char>>| #[trigger]
        self_signed_run(r, password, kind, subject, key, clock, written)
}

/// The view of what writing gave.
pub open spec fn written_result(r: Result<Vec<u8>, String>) -> Result<Seq<u8>, Seq<char>> {
    match r {
        Ok(v) => Ok(v@),
        Err(t) => Err(t@),
    }
}

fn self_signed_keystore(kind: KeyKind, subject: &str, password: &str) -> (r: Result<Vec<u8>, Error>)
    ensures
        self_signed_made(bytes_result(r), password@, kind, subject@),
        r matches Ok(v) ==> holds_self_signed(v@, password@, kind, subject@),
{
    let ghost none = Err::<Seq<u8>, Seq<char>>(Seq::empty());
    let drawn_key: Result<Vec<u8>, Error> = generate(kind);
    let ghost key_view = bytes_result(drawn_key);
    let key: Vec<u8> = match drawn_key {
        Err(e) => {
            proof {
                let clock = Ok::<u64, Seq<char>>(0);
                assert(self_signed_run(Err(e@), password@, kind, subject@, key_view, clock, none));
            }
            return Err(e);
        },
        Ok(key) => key,
    };
    let time: Result<u64, Error> = issue_time();
    let ghost clock = choose|clock: Result<u64, Seq<char>>| plain_result(time) == #[trigger] issue_time_of(clock);
    let now: u64 = match time {
        Err(e) => {
            assert(self_signed_run(Err(e@), password@, kind, subject@, key_view, clock, none));
            return Err(e);
        },
        Ok(now) => now,
    };
    let cert: Vec<u8> = match self_signed_certificate(kind, &key, subject, now) {
        Err(e) => {
            assert(self_signed_run(Err(e@), password@, kind, subject@, key_view, clock, none));
            return Err(e);
        },
        Ok(cert) => cert,
    };
    let certs: Vec<Vec<u8>> = vec![cert];
    assert(blobs(certs@) =~= seq![cert@]);
    let output: Result<Vec<u8>, String> = write_chain(password, &key, &certs);
    let ghost written = written_result(output);
    let r: Result<Vec<u8>, Error> = or_crypto(output);
    assert(self_signed_run(bytes_result(r), password@, kind, subject@, key_view, clock, written));
    assert(r matches Ok(v) ==> self_signed_store(v@, password@, kind, key@, subject@, now));
    r
}

/// Build a self-signed RSA-2048 certificate and wrap it in a PKCS#12 keystore.
pub fn self_signed_p12(password: &str) -> (r: Result<Vec<u8>, Error>)
    ensures
        self_signed_made(
            bytes_result(r),
            password@,
            KeyKind::Rsa,
            "CN=pdf_signer PoC,O=StrategicProjects,C=BR"@,
        ),
        r matches Ok(v) ==> holds_self_signed(
            v@,
            password@,
            KeyKind::Rsa,
            "CN=pdf_signer PoC,O=StrategicProjects,C=BR"@,
        ),
{
    self_signed_keystore(KeyKind::Rsa, "CN=pdf_signer PoC,O=StrategicProjects,C=BR", password)
}

/// Build a self-signed **ECDSA P-256** certificate and wrap it in a PKCS#12.
pub fn self_signed_p256_p12(password: &str) -> (r: Result<Vec<u8>, Error>)
    ensures
        self_signed_made(
            bytes_result(r),
            password@,
            KeyKind::P256,
            "CN=pdf_signer P-256,O=StrategicProjects,C=BR"@,
        ),
        r matches Ok(v) ==> holds_self_signed(
            v@,
            password@,
            KeyKind::P256,
            "CN=pdf_signer P-256,O=StrategicProjects,C=BR"@,
        ),
{
    self_signed_keystore(KeyKind::P256, "CN=pdf_signer P-256,O=StrategicProjects,C=BR", password)
}

/// Build a self-signed **ECDSA P-384** certificate and wrap it in a PKCS#12.
pub fn self_signed_p384_p12(password: &str) -> (r: Result<Vec<u8>, Error>)
    ensures
        self_signed_made(
            bytes_result(r),
            password@,
            KeyKind::P384,
            "CN=pdf_signer P-384,O=StrategicProjects,C=BR"@,
        ),
        r matches Ok(v) ==> holds_self_signed(
            v@,
            password@,
            KeyKind::P384,
            "CN=pdf_signer P-384,O=StrategicProjects,C=BR"@,
        ),
{
    self_signed_keystore(KeyKind::P384, "CN=pdf_signer P-384,O=StrategicProjects,C=BR", password)
}

/// Build a self-signed **Ed25519** certificate and wrap it in a PKCS#12.
pub fn self_signed_ed25519_p12(password: &str) -> (r: Result<Vec<u8>, Error>)
    ensures
        self_signed_made(
            bytes_result(r),
            password@,
            KeyKind::Ed25519,
            "CN=pdf_signer Ed25519,O=StrategicProjects,C=BR"@,
        ),
        r matches Ok(v) ==> holds_self_signed(
            v@,
            password@,
            KeyKind::Ed25519,
            "CN=pdf_signer Ed25519,O=StrategicProjects,C=BR"@,
        ),
{
    self_signed_keystore(KeyKind::Ed25519, "CN=pdf_signer Ed25519,O=StrategicProjects,C=BR", password)
}

// ---------------------------------------------------------------------------
// Certificate hierarchies

/// The certificates of a root and of a leaf below it, the leaf's in front.
pub open spec fn two_levels(root_key: Seq<u8>, leaf_key: Seq<u8>, root: CertFormView, leaf: CertFormView) -> Result<
    Seq<Seq<u8>>,
    ErrorView,
> {
    match issued_certificate(KeyKind::Rsa, root_key, root_key, root) {
        Err(t) => Err(ErrorView::Crypto(t)),
        Ok(r) => match issued_certificate(KeyKind::Rsa, root_key, leaf_key, leaf) {
            Err(t) => Err(ErrorView::Crypto(t)),
            Ok(l) => Ok(seq![l, r]),
        },
    }
}

/// The certificates of a root, of an intermediate authority and of a leaf below it, the
/// leaf's in front.
pub open spec fn three_levels(
    root_key: Seq<u8>,
    inter_key: Seq<u8>,
    leaf_key: Seq<u8>,
    root: CertFormView,
    inter: CertFormView,
    leaf: CertFormView,
) -> Result<Seq<Seq<u8>>, ErrorView> {
    match issued_certificate(KeyKind::Rsa, root_key, root_key, root) {
        Err(t) => Err(ErrorView::Crypto(t)),
        Ok(r) => match issued_certificate(KeyKind::Rsa, root_key, inter_key, inter) {
            Err(t) => Err(ErrorView::Crypto(t)),
            Ok(i) => match issued_certificate(KeyKind::Rsa, inter_key, leaf_key, leaf) {
                Err(t) => Err(ErrorView::Crypto(t)),
                Ok(l) => Ok(seq![l, i, r]),
            },
        },
    }
}

/// The view of a list of certificates, or of why there is none.
pub open spec fn chain_result(r: Result<Vec<Vec<u8>>, Error>) -> Result<Seq<Seq<u8>>, ErrorView> {
    match r {
        Ok(v) => Ok(blobs(v@)),
        Err(e) => Err(e@),
    }
}

/// Issues the certificates of a root and of a leaf below it.
pub fn issue_two_levels(root_key: &[u8], leaf_key: &[u8], root: &CertForm, leaf: &CertForm) -> (r: Result<
    Vec<Vec<u8>>,
    Error,
>)
    ensures
        chain_result(r) == two_levels(root_key@, leaf_key@, root@, leaf@),
{
    match certify(KeyKind::Rsa, root_key, root_key, root) {
        Err(t) => Err(Error::Crypto(t)),
        Ok(r) => match certify(KeyKind::Rsa, root_key, leaf_key, leaf) {
            Err(t) => Err(Error::Crypto(t)),
            Ok(l) => {
                let certs: Vec<Vec<u8>> = vec![l, r];
                assert(blobs(certs@) =~= seq![l@, r@]);
                Ok(certs)
            },
        },
    }
}

/// Issues the certificates of a root, of an intermediate authority and of a leaf below
/// it.
pub fn issue_three_levels(
    root_key: &[u8],
    inter_key: &[u8],
    leaf_key: &[u8],
    root: &CertForm,
    inter: &CertForm,
    leaf: &CertForm,
) -> (r: Result<Vec<Vec<u8>>, Error>)
    ensures
        chain_result(r) == three_levels(root_key@, inter_key@, leaf_key@, root@, inter@, leaf@),
{
    match certify(KeyKind::Rsa, root_key, root_key, root) {
        Err(t) => Err(Error::Crypto(t)),
        Ok(r) => match certify(KeyKind::Rsa, root_key, inter_key, inter) {
            Err(t) => Err(Error::Crypto(t)),
            Ok(i) => match certify(KeyKind::Rsa, inter_key, leaf_key, leaf) {
                Err(t) => Err(Error::Crypto(t)),
                Ok(l) => {
                    let certs: Vec<Vec<u8>> = vec![l, i, r];
                    assert(blobs(certs@) =~= seq![l@, i@, r@]);
                    Ok(certs)
                },
            },
        },
    }
}

/// Whether a keystore holds a leaf's key and the certificates of a hierarchy, whose
/// root is given.
pub open spec fn holds_chain(
    p12: Seq<u8>,
    root: Seq<u8>,
    password: Seq<char>,
    leaf_key: Seq<u8>,
    certs: Result<Seq<Seq<u8>>, ErrorView>,
) -> bool {
    match certs {
        Ok(c) => c.len() > 0 && root == c.last() && stored(p12, password, leaf_key, c),
        Err(_) => false,
    }
}

/// Whether a keystore holds a hierarchy of two levels, made with some keys.
pub open spec fn holds_two_levels(
    p12: Seq<u8>,
    root_der: Seq<u8>,
    password: Seq<char>,
    root: CertFormView,
    leaf: CertFormView,
) -> bool {
    exists|root_key: Seq<u8>, leaf_key: Seq<u8>|
        holds_chain(p12, root_der, password, leaf_key, #[trigger] two_levels(root_key, leaf_key, root, leaf))
}

/// Whether a keystore holds a hierarchy of three levels, made with some keys.
pub open spec fn holds_three_levels(
    p12: Seq<u8>,
    root_der: Seq<u8>,
    password: Seq<char>,
    root: CertFormView,
    inter: CertFormView,
    leaf: CertFormView,
) -> bool {
    exists|root_key: Seq<u8>, inter_key: Seq<u8>, leaf_key: Seq<u8>|
        holds_chain(
            p12,
            root_der,
            password,
            leaf_key,
            #[trigger] three_levels(root_key, inter_key, leaf_key, root, inter, leaf),
        )
}

/// The view of a keystore and the root of its hierarchy, or of why there is none.
pub open spec fn pair_result(r: Result<(Vec<u8>, Vec<u8>), Error>) -> Result<(Seq<u8>, Seq<u8>), ErrorView> {
    match r {
        Ok(v) => Ok((v.0@, v.1@)),
        Err(e) => Err(e@),
    }
}

/// The keystore that was written, with the root of the hierarchy.
pub open spec fn with_root(written: Result<Seq<u8>, Seq<char>>, certs: Seq<Seq<u8>>) -> Result<
    (Seq<u8>, Seq<u8>),
    ErrorView,
> {
    match written {
        Err(t) => Err(ErrorView::Crypto(t)),
        Ok(p12) => Ok((p12, certs.last())),
    }
}

/// The keystore that was written for a hierarchy, with its root.
pub fn keystore_with_root(written: Result<Vec<u8>, String>, certs: &Vec<Vec<u8>>) -> (r: Result<
    (Vec<u8>, Vec<u8>),
    Error,
>)
    requires
        certs@.len() > 0,
    ensures
        pair_result(r) == with_root(written_result(written), blobs(certs@)),
{
    match written {
        Err(t) => Err(Error::Crypto(t)),
        Ok(p12) => Ok((p12, to_vec(&certs[certs.len() - 1]))),
    }
}

/// What was written opens to the leaf's key and the hierarchy.
pub open spec fn chain_written(
    password: Seq<char>,
    leaf_key: Seq<u8>,
    certs: Seq<Seq<u8>>,
    written: Result<Seq<u8>, Seq<char>>,
) -> bool {
    written matches Ok(p12) ==> stored(p12, password, leaf_key, certs)
}

/// A result is what some keystore written for the key and the hierarchy leads to.
pub open spec fn chain_stored(
    r: Result<(Seq<u8>, Seq<u8>), ErrorView>,
    password: Seq<char>,
    leaf_key: Seq<u8>,
    certs: Seq<Seq<u8>>,
) -> bool {
    exists|written: Result<Seq<u8>, Seq<char>>| #[trigger]
        chain_written(password, leaf_key, certs, written) && r == with_root(written, certs)
}

fn store_chain(password: &str, leaf_key: &[u8], certs: Vec<Vec<u8>>) -> (r: Result<(Vec<u8>, Vec<u8>), Error>)
    requires
        certs@.len() > 0,
    ensures
        chain_stored(pair_result(r), password@, leaf_key@, blobs(certs@)),
        r matches Ok(v) ==> v.1@ == blobs(certs@).last() && stored(v.0@, password@, leaf_key@, blobs(certs@)),
{
    let written: Result<Vec<u8>, String> = write_chain(password, leaf_key, &certs);
    let ghost output = written_result(written);
    assert(chain_written(password@, leaf_key@, blobs(certs@), output));
    keystore_with_root(written, &certs)
}

/// A result is the outcome of making a hierarchy of two levels with the keys that were
/// drawn and storing it.
pub open spec fn two_level_run(
    r: Result<(Seq<u8>, Seq<u8>), ErrorView>,
    password: Seq<char>,
    root: CertFormView,
    leaf: CertFormView,
    root_key: Result<Seq<u8>, ErrorView>,
    leaf_key: Result<Seq<u8>, ErrorView>,
) -> bool {
    &&& drawn(KeyKind::Rsa, root_key)
    &&& drawn(KeyKind::Rsa, leaf_key)
    &&& match (root_key, leaf_key) {
        (Ok(rk), Ok(lk)) => match two_levels(rk, lk, root, leaf) {
            Ok(certs) => chain_stored(r, password, lk, certs),
            Err(e) => r == Err::<(Seq<u8>, Seq<u8>), ErrorView>(e),
        },
        (Err(e), _) => r == Err::<(Seq<u8>, Seq<u8>), ErrorView>(e),
        (_, Err(e)) => r == Err::<(Seq<u8>, Seq<u8>), ErrorView>(e),
    }
}

/// A result is the outcome of making a hierarchy of two levels with some keys and
/// storing it.
pub open spec fn two_levels_made(
    r: Result<(Seq<u8>, Seq<u8>), ErrorView>,
    password: Seq<char>,
    root: CertFormView,
    leaf: CertFormView,
) -> bool {
    exists|root_key: Result<Seq<u8>, ErrorView>, leaf_key: Result<Seq<u8>, ErrorView>| #[trigger]
        two_level_run(r, password, root, leaf, root_key, leaf_key)
}

fn two_level_keystore(password: &str, root: &CertForm, leaf: &CertForm) -> (r: Result<(Vec<u8>, Vec<u8>), Error>)
    ensures
        two_levels_made(pair_result(r), password@, root@, leaf@),
        r matches Ok(v) ==> holds_two_levels(v.0@, v.1@, password@, root@, leaf@),
{
    let first: Result<Vec<u8>, Error> = generate(KeyKind::Rsa);
    let second: Result<Vec<u8>, Error> = generate(KeyKind::Rsa);
    let ghost (k1, k2) = (bytes_result(first), bytes_result(second));
    let r: Result<(Vec<u8>, Vec<u8>), Error> = match (first, second) {
        (Ok(root_key), Ok(leaf_key)) => match issue_two_levels(&root_key, &leaf_key, root, leaf) {
            Err(e) => Err(e),
            Ok(certs) => {
                let ghost made = two_levels(root_key@, leaf_key@, root@, leaf@);
                assert(made == Ok::<Seq<Seq<u8>>, ErrorView>(blobs(certs@)));
                assert(blobs(certs@).len() == 2);
                let r: Result<(Vec<u8>, Vec<u8>), Error> = store_chain(password, &leaf_key, certs);
                assert(r matches Ok(v) ==> holds_chain(v.0@, v.1@, password@, leaf_key@, made));
                r
            },
        },
        (Err(e), _) => Err(e),
        (_, Err(e)) => Err(e),
    };
    assert(two_level_run(pair_result(r), password@, root@, leaf@, k1, k2));
    r
}

/// A result is the outcome of making a hierarchy of three levels with the keys that were
/// drawn and storing it.
pub open spec fn three_level_run(
    r: Result<(Seq<u8>, Seq<u8>), ErrorView>,
    password: Seq<char>,
    root: CertFormView,
    inter: CertFormView,
    leaf: CertFormView,
    root_key: Result<Seq<u8>, ErrorView>,
    inter_key: Result<Seq<u8>, ErrorView>,
    leaf_key: Result<Seq<u8>, ErrorView>,
) -> bool {
    &&& drawn(KeyKind::Rsa, root_key)
    &&& drawn(KeyKind::Rsa, inter_key)
    &&& drawn(KeyKind::Rsa, leaf_key)
    &&& match (root_key, inter_key, leaf_key) {
        (Ok(rk), Ok(ik), Ok(lk)) => match three_levels(rk, ik, lk, root, inter, leaf) {
            Ok(certs) => chain_stored(r, password, lk, certs),
            Err(e) => r == Err::<(Seq<u8>, Seq<u8>), ErrorView>(e),
        },
        (Err(e), _, _) => r == Err::<(Seq<u8>, Seq<u8>), ErrorView>(e),
        (_, Err(e), _) => r == Err::<(Seq<u8>, Seq<u8>), ErrorView>(e),
        (_, _, Err(e)) => r == Err::<(Seq<u8>, Seq<u8>), ErrorView>(e),
    }
}

/// A result is the outcome of making a hierarchy of three levels with some keys and
/// storing it.
pub open spec fn three_levels_made(
    r: Result<(Seq<u8>, Seq<u8>), ErrorView>,
    password: Seq<char>,
    root: CertFormView,
    inter: CertFormView,
    leaf: CertFormView,
) -> bool {
    exists|
        root_key: Result<Seq<u8>, ErrorView>,
        inter_key: Result<Seq<u8>, ErrorView>,
        leaf_key: Result<Seq<u8>, ErrorView>,
    | #[trigger]
        three_level_run(r, password, root, inter, leaf, root_key, inter_key, leaf_key)
}

fn three_level_keystore(password: &str, root: &CertForm, inter: &CertForm, leaf: &CertForm) -> (r: Result<
    (Vec<u8>, Vec<u8>),
    Error,
>)
    ensures
        three_levels_made(pair_result(r), password@, root@, inter@, leaf@),
        r matches Ok(v) ==> holds_three_levels(v.0@, v.1@, password@, root@, inter@, leaf@),
{
    let first: Result<Vec<u8>, Error> = generate(KeyKind::Rsa);
    let second: Result<Vec<u8>, Error> = generate(KeyKind::Rsa);
    let third: Result<Vec<u8>, Error> = generate(KeyKind::Rsa);
    let ghost (k1, k2, k3) = (bytes_result(first), bytes_result(second), bytes_result(third));
    let r: Result<(Vec<u8>, Vec<u8>), Error> = match (first, second, third) {
        (Ok(root_key), Ok(inter_key), Ok(leaf_key)) => match issue_three_levels(
            &root_key,
            &inter_key,
            &leaf_key,
            root,
            inter,
            leaf,
        ) {
            Err(e) => Err(e),
            Ok(certs) => {
                let ghost made = three_levels(root_key@, inter_key@, leaf_key@, root@, inter@, leaf@);
                assert(made == Ok::<Seq<Seq<u8>>, ErrorView>(blobs(certs@)));
                assert(blobs(certs@).len() == 3);
                let r: Result<(Vec<u8>, Vec<u8>), Error> = store_chain(password, &leaf_key, certs);
                assert(r matches Ok(v) ==> holds_chain(v.0@, v.1@, password@, leaf_key@, made));
                r
            },
        },
        (Err(e), _, _) => Err(e),
        (_, Err(e), _) => Err(e),
        (_, _, Err(e)) => Err(e),
    };
    assert(three_level_run(pair_result(r), password@, root@, inter@, leaf@, k1, k2, k3));
    r
}

/// The form of a self-signed root.
pub open spec fn root_form(now: u64, subject: Seq<char>, extensions: Seq<ExtensionView>) -> CertFormView {
    year_form(ProfileView::Root, 1, now, subject, extensions)
}

/// The form of an intermediate authority that issues to end entities alone.
pub open spec fn inter_form(
    now: u64,
    issuer: Seq<char>,
    subject: Seq<char>,
    extensions: Seq<ExtensionView>,
) -> CertFormView {
    year_form(ProfileView::SubCa { issuer, path_len: Some(0) }, 2, now, subject, extensions)
}

/// The form of a leaf.
pub open spec fn leaf_form(
    serial: u32,
    now: u64,
    issuer: Seq<char>,
    subject: Seq<char>,
    extensions: Seq<ExtensionView>,
) -> CertFormView {
    year_form(
        ProfileView::Leaf { issuer, key_agreement: false, key_encipherment: true },
        serial,
        now,
        subject,
        extensions,
    )
}

fn leaf_profile(issuer: &str) -> (r: CertProfile)
    ensures
        r@ == (ProfileView::Leaf { issuer: issuer@, key_agreement: false, key_encipherment: true }),
{
    CertProfile::Leaf { issuer: issuer.to_owned(), key_agreement: false, key_encipherment: true }
}

fn inter_profile(issuer: &str) -> (r: CertProfile)
    ensures
        r@ == (ProfileView::SubCa { issuer: issuer@, path_len: Some(0) }),
{
    CertProfile::SubCa { issuer: issuer.to_owned(), path_len: Some(0) }
}

/// What [`ca_signed_p12`] promises of a keystore and a root.
pub open spec fn ca_signed(p12: Seq<u8>, root: Seq<u8>, password: Seq<char>) -> bool {
    let issuer = "CN=PoC Test Root CA,O=StrategicProjects,C=BR"@;
    exists|now: u64|
        holds_two_levels(
            p12,
            root,
            password,
            #[trigger] root_form(now, issuer, Seq::empty()),
            leaf_form(2, now, issuer, "CN=PoC Signer,O=StrategicProjects,C=BR"@, Seq::empty()),
        )
}

/// The forms of a root and of a leaf below it.
pub open spec fn ca_signed_form_views(now: u64) -> (CertFormView, CertFormView) {
    let issuer = "CN=PoC Test Root CA,O=StrategicProjects,C=BR"@;
    (
        root_form(now, issuer, Seq::empty()),
        leaf_form(2, now, issuer, "CN=PoC Signer,O=StrategicProjects,C=BR"@, Seq::empty()),
    )
}

/// The forms of a root and of a leaf below it.
pub fn ca_signed_forms(now: u64) -> (r: (CertForm, CertForm))
    requires
        now + YEAR <= u64::MAX,
    ensures
        (r.0@, r.1@) == ca_signed_form_views(now),
{
    let issuer: &str = "CN=PoC Test Root CA,O=StrategicProjects,C=BR";
    (
        new_form(CertProfile::Root, 1, now, issuer, no_extensions()),
        new_form(leaf_profile(issuer), 2, now, "CN=PoC Signer,O=StrategicProjects,C=BR", no_extensions()),
    )
}

/// A result is what a hierarchy made at the time that the clock gives leads to.
pub open spec fn ca_signed_run(
    r: Result<(Seq<u8>, Seq<u8>), ErrorView>,
    password: Seq<char>,
    clock: Result<u64, Seq<char>>,
) -> bool {
    match issue_time_of(clock) {
        Err(e) => r == Err::<(Seq<u8>, Seq<u8>), ErrorView>(e),
        Ok(now) => {
            let (root, leaf) = ca_signed_form_views(now);
            two_levels_made(r, password, root, leaf)
        },
    }
}

/// A result is what a hierarchy made at some time leads to.
pub open spec fn ca_signed_made(r: Result<(Seq<u8>, Seq<u8>), ErrorView>, password: Seq<char>) -> bool {
    exists|clock: Result<u64, Seq<char>>| #[trigger] ca_signed_run(r, password, clock)
}

/// Build a tiny PKI — a self-signed root CA and a leaf signed by it — and
/// return `(p12, root_cert_der)`. The p12 holds the leaf key + `[leaf, root]`
/// chain; `root_cert_der` is the trust anchor for chain validation.
pub fn ca_signed_p12(password: &str) -> (r: Result<(Vec<u8>, Vec<u8>), Error>)
    ensures
        ca_signed_made(pair_result(r), password@),
        r matches Ok(v) ==> ca_signed(v.0@, v.1@, password@),
{
    let time: Result<u64, Error> = issue_time();
    let ghost clock = choose|clock: Result<u64, Seq<char>>| plain_result(time) == #[trigger] issue_time_of(clock);
    match time {
        Err(e) => {
            assert(ca_signed_run(Err(e@), password@, clock));
            Err(e)
        },
        Ok(now) => {
            let (root, leaf) = ca_signed_forms(now);
            let r: Result<(Vec<u8>, Vec<u8>), Error> = two_level_keystore(password, &root, &leaf);
            assert(ca_signed_run(pair_result(r), password@, clock));
            assert(root@ == root_form(now, "CN=PoC Test Root CA,O=StrategicProjects,C=BR"@, Seq::empty()));
            r
        },
    }
}

/// The name constraint on a leaf.
pub open spec fn name_constraint(subject: Seq<char>, excluded: bool) -> ExtensionView {
    if excluded {
        ExtensionView::Excluded(subject)
    } else {
        ExtensionView::Permitted(subject)
    }
}

/// What [`ca_name_constrained_p12`] promises of a keystore and a root.
pub open spec fn ca_name_constrained(p12: Seq<u8>, root: Seq<u8>, password: Seq<char>, excluded: bool) -> bool {
    let issuer = "CN=NC Root,O=StrategicProjects,C=BR"@;
    let subject = "CN=NC Leaf,O=StrategicProjects,C=BR"@;
    exists|now: u64|
        holds_two_levels(
            p12,
            root,
            password,
            #[trigger] root_form(now, issuer, seq![name_constraint(subject, excluded)]),
            leaf_form(2, now, issuer, subject, Seq::empty()),
        )
}

/// The forms of a root that constrains names and of a leaf below it.
pub open spec fn ca_name_constrained_form_views(now: u64, excluded: bool) -> (CertFormView, CertFormView) {
    let issuer = "CN=NC Root,O=StrategicProjects,C=BR"@;
    let subject = "CN=NC Leaf,O=StrategicProjects,C=BR"@;
    (
        root_form(now, issuer, seq![name_constraint(subject, excluded)]),
        leaf_form(2, now, issuer, subject, Seq::empty()),
    )
}

/// The forms of a root that constrains names and of a leaf below it.
pub fn ca_name_constrained_forms(now: u64, excluded: bool) -> (r: (CertForm, CertForm))
    requires
        now + YEAR <= u64::MAX,
    ensures
        (r.0@, r.1@) == ca_name_constrained_form_views(now, excluded),
{
    let issuer: &str = "CN=NC Root,O=StrategicProjects,C=BR";
    let subject: &str = "CN=NC Leaf,O=StrategicProjects,C=BR";
    let constraint: CertExtension = if excluded {
        CertExtension::Excluded(subject.to_owned())
    } else {
        CertExtension::Permitted(subject.to_owned())
    };
    (
        new_form(CertProfile::Root, 1, now, issuer, one_extension(constraint)),
        new_form(leaf_profile(issuer), 2, now, subject, no_extensions()),
    )
}

/// A result is what a hierarchy made at the time that the clock gives leads to.
pub open spec fn ca_name_constrained_run(
    r: Result<(Seq<u8>, Seq<u8>), ErrorView>,
    password: Seq<char>,
    excluded: bool,
    clock: Result<u64, Seq<char>>,
) -> bool {
    match issue_time_of(clock) {
        Err(e) => r == Err::<(Seq<u8>, Seq<u8>), ErrorView>(e),
        Ok(now) => {
            let (root, leaf) = ca_name_constrained_form_views(now, excluded);
            two_levels_made(r, password, root, leaf)
        },
    }
}

/// A result is what a hierarchy made at some time leads to.
pub open spec fn ca_name_constrained_made(
    r: Result<(Seq<u8>, Seq<u8>), ErrorView>,
    password: Seq<char>,
    excluded: bool,
) -> bool {
    exists|clock: Result<u64, Seq<char>>| #[trigger] ca_name_constrained_run(r, password, excluded, clock)
}

/// Root CA that name-constrains the leaf's exact DN — permitted (`excluded` =
/// false) or excluded (true). Returns `(p12, root_cert_der)`.
pub fn ca_name_constrained_p12(password: &str, excluded: bool) -> (r: Result<(Vec<u8>, Vec<u8>), Error>)
    ensures
        ca_name_constrained_made(pair_result(r), password@, excluded),
        r matches Ok(v) ==> ca_name_constrained(v.0@, v.1@, password@, excluded),
{
    let time: Result<u64, Error> = issue_time();
    let ghost clock = choose|clock: Result<u64, Seq<char>>| plain_result(time) == #[trigger] issue_time_of(clock);
    match time {
        Err(e) => {
            assert(ca_name_constrained_run(Err(e@), password@, excluded, clock));
            Err(e)
        },
        Ok(now) => {
            let (root, leaf) = ca_name_constrained_forms(now, excluded);
            let r: Result<(Vec<u8>, Vec<u8>), Error> = two_level_keystore(password, &root, &leaf);
            assert(ca_name_constrained_run(pair_result(r), password@, excluded, clock));
            assert(root@ == root_form(
                now,
                "CN=NC Root,O=StrategicProjects,C=BR"@,
                seq![name_constraint("CN=NC Leaf,O=StrategicProjects,C=BR"@, excluded)],
            ));
            r
        },
    }
}

/// What [`ca_with_policy_p12`] promises of a keystore and a root.
pub open spec fn ca_with_policy(p12: Seq<u8>, root: Seq<u8>, password: Seq<char>, policy: Seq<char>) -> bool {
    let issuer = "CN=Policy Root,O=StrategicProjects,C=BR"@;
    exists|now: u64|
        holds_two_levels(
            p12,
            root,
            password,
            #[trigger] root_form(now, issuer, Seq::empty()),
            leaf_form(
                2,
                now,
                issuer,
                "CN=Policy Leaf,O=StrategicProjects,C=BR"@,
                seq![ExtensionView::Policy(policy)],
            ),
        )
}

/// The forms of a root and of a leaf that asserts a policy.
pub open spec fn ca_with_policy_form_views(now: u64, policy: Seq<char>) -> (CertFormView, CertFormView) {
    let issuer = "CN=Policy Root,O=StrategicProjects,C=BR"@;
    (
        root_form(now, issuer, Seq::empty()),
        leaf_form(
            2,
            now,
            issuer,
            "CN=Policy Leaf,O=StrategicProjects,C=BR"@,
            seq![ExtensionView::Policy(policy)],
        ),
    )
}

/// The forms of a root and of a leaf that asserts a policy.
pub fn ca_with_policy_forms(now: u64, policy_oid: &str) -> (r: (CertForm, CertForm))
    requires
        now + YEAR <= u64::MAX,
    ensures
        (r.0@, r.1@) == ca_with_policy_form_views(now, policy_oid@),
{
    let issuer: &str = "CN=Policy Root,O=StrategicProjects,C=BR";
    (
        new_form(CertProfile::Root, 1, now, issuer, no_extensions()),
        new_form(
            leaf_profile(issuer),
            2,
            now,
            "CN=Policy Leaf,O=StrategicProjects,C=BR",
            one_extension(CertExtension::Policy(policy_oid.to_owned())),
        ),
    )
}

/// A result is what a hierarchy made at the time that the clock gives leads to.
pub open spec fn ca_with_policy_run(
    r: Result<(Seq<u8>, Seq<u8>), ErrorView>,
    password: Seq<char>,
    policy: Seq<char>,
    clock: Result<u64, Seq<char>>,
) -> bool {
    match issue_time_of(clock) {
        Err(e) => r == Err::<(Seq<u8>, Seq<u8>), ErrorView>(e),
        Ok(now) => {
            let (root, leaf) = ca_with_policy_form_views(now, policy);
            two_levels_made(r, password, root, leaf)
        },
    }
}

/// A result is what a hierarchy made at some time leads to.
pub open spec fn ca_with_policy_made(
    r: Result<(Seq<u8>, Seq<u8>), ErrorView>,
    password: Seq<char>,
    policy: Seq<char>,
) -> bool {
    exists|clock: Result<u64, Seq<char>>| #[trigger] ca_with_policy_run(r, password, policy, clock)
}

/// Root CA + leaf where the leaf asserts `policy_oid`. Returns `(p12, root_der)`.
pub fn ca_with_policy_p12(password: &str, policy_oid: &str) -> (r: Result<(Vec<u8>, Vec<u8>), Error>)
    ensures
        ca_with_policy_made(pair_result(r), password@, policy_oid@),
        r matches Ok(v) ==> ca_with_policy(v.0@, v.1@, password@, policy_oid@),
{
    let time: Result<u64, Error> = issue_time();
    let ghost clock = choose|clock: Result<u64, Seq<char>>| plain_result(time) == #[trigger] issue_time_of(clock);
    match time {
        Err(e) => {
            assert(ca_with_policy_run(Err(e@), password@, policy_oid@, clock));
            Err(e)
        },
        Ok(now) => {
            let (root, leaf) = ca_with_policy_forms(now, policy_oid);
            let r: Result<(Vec<u8>, Vec<u8>), Error> = two_level_keystore(password, &root, &leaf);
            assert(ca_with_policy_run(pair_result(r), password@, policy_oid@, clock));
            assert(root@ == root_form(now, "CN=Policy Root,O=StrategicProjects,C=BR"@, Seq::empty()));
            r
        },
    }
}

/// What [`ca_chain_policy_mapping_p12`] promises of a keystore and a root.
pub open spec fn ca_chain_policy_mapping(
    p12: Seq<u8>,
    root: Seq<u8>,
    password: Seq<char>,
    idp: Seq<char>,
    sdp: Seq<char>,
) -> bool {
    let issuer = "CN=PM Root,O=StrategicProjects,C=BR"@;
    let inter = "CN=PM Intermediate,O=StrategicProjects,C=BR"@;
    exists|now: u64|
        holds_three_levels(
            p12,
            root,
            password,
            #[trigger] root_form(now, issuer, Seq::empty()),
            inter_form(
                now,
                issuer,
                inter,
                seq![ExtensionView::Policy(idp), ExtensionView::Mapping(idp, sdp)],
            ),
            leaf_form(3, now, inter, "CN=PM Leaf,O=StrategicProjects,C=BR"@, seq![ExtensionView::Policy(sdp)]),
        )
}

/// The forms of a root, of an intermediate authority that maps a policy, and of a leaf.
pub open spec fn ca_chain_policy_mapping_form_views(
    now: u64,
    idp: Seq<char>,
    sdp: Seq<char>,
) -> (CertFormView, CertFormView, CertFormView) {
    let issuer = "CN=PM Root,O=StrategicProjects,C=BR"@;
    let middle = "CN=PM Intermediate,O=StrategicProjects,C=BR"@;
    (
        root_form(now, issuer, Seq::empty()),
        inter_form(now, issuer, middle, seq![ExtensionView::Policy(idp), ExtensionView::Mapping(idp, sdp)]),
        leaf_form(3, now, middle, "CN=PM Leaf,O=StrategicProjects,C=BR"@, seq![ExtensionView::Policy(sdp)]),
    )
}

/// The forms of a root, of an intermediate authority that maps a policy, and of a leaf.
pub fn ca_chain_policy_mapping_forms(now: u64, idp: &str, sdp: &str) -> (r: (CertForm, CertForm, CertForm))
    requires
        now + YEAR <= u64::MAX,
    ensures
        (r.0@, r.1@, r.2@) == ca_chain_policy_mapping_form_views(now, idp@, sdp@),
{
    let issuer: &str = "CN=PM Root,O=StrategicProjects,C=BR";
    let middle: &str = "CN=PM Intermediate,O=StrategicProjects,C=BR";
    let mapped: Vec<CertExtension> = vec![
        CertExtension::Policy(idp.to_owned()),
        CertExtension::Mapping(idp.to_owned(), sdp.to_owned()),
    ];
    assert(extension_views(mapped@) =~= seq![ExtensionView::Policy(idp@), ExtensionView::Mapping(idp@, sdp@)]);
    (
        new_form(CertProfile::Root, 1, now, issuer, no_extensions()),
        new_form(inter_profile(issuer), 2, now, middle, mapped),
        new_form(
            leaf_profile(middle),
            3,
            now,
            "CN=PM Leaf,O=StrategicProjects,C=BR",
            one_extension(CertExtension::Policy(sdp.to_owned())),
        ),
    )
}

/// A result is what a hierarchy made at the time that the clock gives leads to.
pub open spec fn ca_chain_policy_mapping_run(
    r: Result<(Seq<u8>, Seq<u8>), ErrorView>,
    password: Seq<char>,
    idp: Seq<char>,
    sdp: Seq<char>,
    clock: Result<u64, Seq<char>>,
) -> bool {
    match issue_time_of(clock) {
        Err(e) => r == Err::<(Seq<u8>, Seq<u8>), ErrorView>(e),
        Ok(now) => {
            let (root, inter, leaf) = ca_chain_policy_mapping_form_views(now, idp, sdp);
            three_levels_made(r, password, root, inter, leaf)
        },
    }
}

/// A result is what a hierarchy made at some time leads to.
pub open spec fn ca_chain_policy_mapping_made(
    r: Result<(Seq<u8>, Seq<u8>), ErrorView>,
    password: Seq<char>,
    idp: Seq<char>,
    sdp: Seq<char>,
) -> bool {
    exists|clock: Result<u64, Seq<char>>| #[trigger] ca_chain_policy_mapping_run(r, password, idp, sdp, clock)
}

/// Root → intermediate (asserts `idp`, maps `idp`→`sdp`) → leaf (asserts `sdp`).
/// Exercises RFC 5280 policy mapping. Returns `(p12, root_der)`.
pub fn ca_chain_policy_mapping_p12(password: &str, idp: &str, sdp: &str) -> (r: Result<(Vec<u8>, Vec<u8>), Error>)
    ensures
        ca_chain_policy_mapping_made(pair_result(r), password@, idp@, sdp@),
        r matches Ok(v) ==> ca_chain_policy_mapping(v.0@, v.1@, password@, idp@, sdp@),
{
    let time: Result<u64, Error> = issue_time();
    let ghost clock = choose|clock: Result<u64, Seq<char>>| plain_result(time) == #[trigger] issue_time_of(clock);
    match time {
        Err(e) => {
            assert(ca_chain_policy_mapping_run(Err(e@), password@, idp@, sdp@, clock));
            Err(e)
        },
        Ok(now) => {
            let (root, inter, leaf) = ca_chain_policy_mapping_forms(now, idp, sdp);
            let r: Result<(Vec<u8>, Vec<u8>), Error> = three_level_keystore(password, &root, &inter, &leaf);
            assert(ca_chain_policy_mapping_run(pair_result(r), password@, idp@, sdp@, clock));
            assert(root@ == root_form(now, "CN=PM Root,O=StrategicProjects,C=BR"@, Seq::empty()));
            r
        },
    }
}

/// What [`ca_chain3_p12`] promises of a keystore and a root.
pub open spec fn ca_chain3(p12: Seq<u8>, root: Seq<u8>, password: Seq<char>) -> bool {
    let issuer = "CN=PoC Root CA,O=StrategicProjects,C=BR"@;
    let inter = "CN=PoC Intermediate CA,O=StrategicProjects,C=BR"@;
    exists|now: u64|
        holds_three_levels(
            p12,
            root,
            password,
            #[trigger] root_form(now, issuer, Seq::empty()),
            inter_form(now, issuer, inter, Seq::empty()),
            leaf_form(3, now, inter, "CN=PoC Signer,O=StrategicProjects,C=BR"@, Seq::empty()),
        )
}

/// The forms of a root, of an intermediate authority and of a leaf.
pub open spec fn ca_chain3_form_views(now: u64) -> (CertFormView, CertFormView, CertFormView) {
    let issuer = "CN=PoC Root CA,O=StrategicProjects,C=BR"@;
    let middle = "CN=PoC Intermediate CA,O=StrategicProjects,C=BR"@;
    (
        root_form(now, issuer, Seq::empty()),
        inter_form(now, issuer, middle, Seq::empty()),
        leaf_form(3, now, middle, "CN=PoC Signer,O=StrategicProjects,C=BR"@, Seq::empty()),
    )
}

/// The forms of a root, of an intermediate authority and of a leaf.
pub fn ca_chain3_forms(now: u64) -> (r: (CertForm, CertForm, CertForm))
    requires
        now + YEAR <= u64::MAX,
    ensures
        (r.0@, r.1@, r.2@) == ca_chain3_form_views(now),
{
    let issuer: &str = "CN=PoC Root CA,O=StrategicProjects,C=BR";
    let middle: &str = "CN=PoC Intermediate CA,O=StrategicProjects,C=BR";
    (
        new_form(CertProfile::Root, 1, now, issuer, no_extensions()),
        new_form(inter_profile(issuer), 2, now, middle, no_extensions()),
        new_form(leaf_profile(middle), 3, now, "CN=PoC Signer,O=StrategicProjects,C=BR", no_extensions()),
    )
}

/// A result is what a hierarchy made at the time that the clock gives leads to.
pub open spec fn ca_chain3_run(
    r: Result<(Seq<u8>, Seq<u8>), ErrorView>,
    password: Seq<char>,
    clock: Result<u64, Seq<char>>,
) -> bool {
    match issue_time_of(clock) {
        Err(e) => r == Err::<(Seq<u8>, Seq<u8>), ErrorView>(e),
        Ok(now) => {
            let (root, inter, leaf) = ca_chain3_form_views(now);
            three_levels_made(r, password, root, inter, leaf)
        },
    }
}

/// A result is what a hierarchy made at some time leads to.
pub open spec fn ca_chain3_made(r: Result<(Seq<u8>, Seq<u8>), ErrorView>, password: Seq<char>) -> bool {
    exists|clock: Result<u64, Seq<char>>| #[trigger] ca_chain3_run(r, password, clock)
}

/// Build a three-level PKI (root CA → intermediate CA → leaf). Returns
/// `(p12, root_cert_der)`; the p12 holds the leaf key + `[leaf, intermediate,
/// root]` chain, exercising path building through an intermediate.
pub fn ca_chain3_p12(password: &str) -> (r: Result<(Vec<u8>, Vec<u8>), Error>)
    ensures
        ca_chain3_made(pair_result(r), password@),
        r matches Ok(v) ==> ca_chain3(v.0@, v.1@, password@),
{
    let time: Result<u64, Error> = issue_time();
    let ghost clock = choose|clock: Result<u64, Seq<char>>| plain_result(time) == #[trigger] issue_time_of(clock);
    match time {
        Err(e) => {
            assert(ca_chain3_run(Err(e@), password@, clock));
            Err(e)
        },
        Ok(now) => {
            let (root, inter, leaf) = ca_chain3_forms(now);
            let r: Result<(Vec<u8>, Vec<u8>), Error> = three_level_keystore(password, &root, &inter, &leaf);
            assert(ca_chain3_run(pair_result(r), password@, clock));
            assert(root@ == root_form(now, "CN=PoC Root CA,O=StrategicProjects,C=BR"@, Seq::empty()));
            r
        },
    }
}

} // verus!
