//! Signing path: insert a signature field + `ETSI.CAdES.detached` CMS signature.
//!
//! Signing up to the baseline level needs nothing but the document and the keystore.
//! The higher levels ask time-stamping authorities, CRL distribution points and OCSP
//! responders. A [`Step`] then says what to fetch, and [`resume`] goes on with what
//! came back.
use vstd::prelude::*;

use crate::appearance::{length_of, length_value};
use crate::certificate::{certificates_of, parse_certificates, Certificate};
use crate::clock::unix_now;
use crate::digest::sha256;
use crate::document::{loaded, Doc};
use crate::dss::{add_dss, dss_appended, MaterialView, ValidationMaterial};
use crate::error::{bytes_result, Error, ErrorView};
use crate::incremental::law_update_keeps_original;
use crate::material::{
    accepts_crl, accepts_ocsp, all_crl_urls, collect_material_certs, crl_urls, is_crl_reply, make_queries,
    material_certs, ocsp_queries, ocsp_successful, query_views, string_views,
};
use crate::options::{PadesLevel, SignOptions};
use crate::placeholder::{
    bytes_outside, fill_contents, filled, law_patch_keeps_rest, locate_contents_placeholder, located, outside,
    patch_byte_range, patched,
};
use crate::report_laws::{adds_valid_signature, lemma_adds_valid_signature};
use crate::signed_data::{cms_certificates, cms_of, cms_signer, signed_values_at};
use crate::signer::{
    apply_timestamp, cms_sign, framed, keystore_of, keystore_signature, made_by, signature_to_stamp, stamp_subject,
    stamped, verifies_for,
};
use crate::sorting::{sort_blobs, sorted};
use crate::tsa::{build_timestamp_request, read_timestamp_reply, timestamp_request, token_in_reply};
use crate::update::{
    build_doctimestamp_update, build_incremental_update, signature_items, signature_update, timestamp_items,
    timestamp_update,
};
use crate::util::{blobs, copy_blobs, distinct, lit, to_vec};

verus! {

// ---------------------------------------------------------------------------
// Steps

/// Something to fetch: `body` is posted to `url` with its content type; without a
/// content type, `url` is got.
#[derive(Debug)]
pub struct Request {
    pub url: String,
    pub content_type: Option<String>,
    pub body: Vec<u8>,
}

/// Something to fetch, as a mathematical value.
pub struct RequestView {
    pub url: Seq<char>,
    pub content_type: Option<Seq<char>>,
    pub body: Seq<u8>,
}

impl Request {
    pub open spec fn view(&self) -> RequestView {
        RequestView {
            url: self.url@,
            content_type: match self.content_type {
                Some(t) => Some(t@),
                None => None,
            },
            body: self.body@,
        }
    }
}

/// What is left of the options after the signature dictionary was built.
#[derive(Debug)]
pub struct Job {
    level: PadesLevel,
    tsa_url: Option<String>,
    capacity: usize,
}

/// A job as a mathematical value.
pub struct JobView {
    pub level: PadesLevel,
    pub tsa_url: Option<Seq<char>>,
    pub capacity: nat,
}

impl Job {
    pub closed spec fn view(&self) -> JobView {
        JobView {
            level: self.level,
            tsa_url: match self.tsa_url {
                Some(u) => Some(u@),
                None => None,
            },
            capacity: self.capacity as nat,
        }
    }
}

/// Validation material as far as it was collected: CRLs are fetched first, OCSP
/// responses second; `next` counts both.
#[derive(Debug)]
pub struct Collection {
    certs: Vec<Vec<u8>>,
    urls: Vec<String>,
    queries: Vec<(String, Vec<u8>)>,
    crls: Vec<Vec<u8>>,
    ocsps: Vec<Vec<u8>>,
    next: u128,
}

/// A collection as a mathematical value.
pub struct CollectionView {
    pub certs: Seq<Seq<u8>>,
    pub urls: Seq<Seq<char>>,
    pub queries: Seq<(Seq<char>, Seq<u8>)>,
    pub crls: Seq<Seq<u8>>,
    pub ocsps: Seq<Seq<u8>>,
    pub next: nat,
}

impl Collection {
    pub closed spec fn view(&self) -> CollectionView {
        CollectionView {
            certs: blobs(self.certs@),
            urls: string_views(self.urls@),
            queries: query_views(self.queries@),
            crls: blobs(self.crls@),
            ocsps: blobs(self.ocsps@),
            next: self.next as nat,
        }
    }
}

/// A signature that waits for a reply.
#[derive(Debug)]
pub enum Pending {
    /// For a timestamp of the signature `cms`, which goes behind the `<` at `lt`.
    SignatureStamp { job: Job, buf: Vec<u8>, lt: usize, cms: Vec<u8> },
    /// For a piece of validation material.
    Material { job: Job, buf: Vec<u8>, collection: Collection },
    /// For a timestamp of the document, which goes behind the `<` at `lt`.
    DocumentStamp { buf: Vec<u8>, lt: usize, capacity: usize },
}

/// A signature that waits for a reply, as a mathematical value.
pub enum PendingView {
    SignatureStamp { job: JobView, buf: Seq<u8>, lt: int, cms: Seq<u8> },
    Material { job: JobView, buf: Seq<u8>, collection: CollectionView },
    DocumentStamp { buf: Seq<u8>, lt: int, capacity: nat },
}

impl Pending {
    pub open spec fn view(&self) -> PendingView {
        match *self {
            Pending::SignatureStamp { job, buf, lt, cms } => PendingView::SignatureStamp {
                job: job@,
                buf: buf@,
                lt: lt as int,
                cms: cms@,
            },
            Pending::Material { job, buf, collection } => PendingView::Material {
                job: job@,
                buf: buf@,
                collection: collection@,
            },
            Pending::DocumentStamp { buf, lt, capacity } => PendingView::DocumentStamp {
                buf: buf@,
                lt: lt as int,
                capacity: capacity as nat,
            },
        }
    }
}

/// The placeholder lies in the file, and what is to be fetched next is on the list.
pub open spec fn sound(p: PendingView) -> bool {
    match p {
        PendingView::SignatureStamp { job, buf, lt, cms } => 0 <= lt && lt + 1 + 2 * job.capacity < buf.len(),
        PendingView::Material { job, buf, collection } => collection.next < collection.urls.len()
            + collection.queries.len(),
        PendingView::DocumentStamp { buf, lt, capacity } => 0 <= lt && lt + 1 + 2 * capacity < buf.len(),
    }
}

/// The next step of signing.
#[derive(Debug)]
pub enum Step {
    /// The signed document, or why there is none.
    Done(Result<Vec<u8>, Error>),
    /// Something to fetch, and what to go on with.
    Fetch(Request, Pending),
}

/// The next step of signing, as a mathematical value.
pub enum StepView {
    Done(Result<Seq<u8>, ErrorView>),
    Fetch(RequestView, PendingView),
}

impl Step {
    pub open spec fn view(&self) -> StepView {
        match *self {
            Step::Done(r) => StepView::Done(bytes_result(r)),
            Step::Fetch(r, p) => StepView::Fetch(r@, p@),
        }
    }
}

/// What waits after a step, if anything, is sound.
pub open spec fn step_sound(s: StepView) -> bool {
    s matches StepView::Fetch(_, p) ==> sound(p)
}

fn failed(e: Error) -> (r: Step)
    ensures
        r@ == StepView::Done(Err(e@)),
{
    Step::Done(Err(e))
}

// ---------------------------------------------------------------------------
// Placeholders

/// A file with a signature section behind its first `start` bytes, made ready for
/// signing: its byte range written, and the index of the `<` of its `/Contents`.
pub open spec fn prepared(buf: Seq<u8>, capacity: nat, start: int) -> Result<(Seq<u8>, int), ErrorView> {
    match located(buf, capacity, start) {
        Err(e) => Err(e),
        Ok((lt, gt)) => match patched(
            buf,
            start,
            length_value(lt as nat) as int,
            length_value((gt + 1) as nat) as int,
            length_value((buf.len() - gt - 1) as nat) as int,
        ) {
            Err(e) => Err(e),
            Ok(v) => Ok((v, lt)),
        },
    }
}

/// The bytes that are signed: everything except the `/Contents` hole.
pub open spec fn to_sign(buf: Seq<u8>, lt: int, capacity: nat) -> Seq<u8> {
    outside(buf, lt, lt + 2 + 2 * capacity)
}

fn prepare(buf: Vec<u8>, capacity: usize, start: usize) -> (r: Result<(Vec<u8>, usize), Error>)
    requires
        start <= buf.len(),
    ensures
        match prepared(buf@, capacity as nat, start as int) {
            Ok((v, lt)) => r matches Ok((b, l)) && b@ == v && l == lt && start <= l && l + 1 + 2 * capacity < b.len(),
            Err(e) => r is Err && r->Err_0@ == e,
        },
{
    let mut buf: Vec<u8> = buf;
    let total: usize = buf.len();
    let ghost before = buf@;
    let (lt, gt) = match locate_contents_placeholder(&buf, capacity, start) {
        Err(e) => {
            return Err(e);
        },
        Ok(p) => p,
    };
    let (a, b, c): (i64, i64, i64) = (length_of(lt), length_of(gt + 1), length_of(total - gt - 1));
    match patch_byte_range(&mut buf, start, a, b, c) {
        Err(e) => Err(e),
        Ok(()) => {
            proof {
                law_patch_keeps_rest(before, start as int, a as int, b as int, c as int);
            }
            Ok((buf, lt))
        },
    }
}

// ---------------------------------------------------------------------------
// Timestamps

/// A request to a time-stamping authority for a timestamp over the data.
pub open spec fn stamp_request(url: Seq<char>, data: Seq<u8>) -> RequestView {
    RequestView {
        url,
        content_type: Some("application/timestamp-query"@),
        body: timestamp_request(sha256(data)),
    }
}

/// A request to a time-stamping authority for a timestamp over the data.
pub fn request_timestamp(tsa_url: &str, data: &[u8]) -> (r: Request)
    ensures
        r@ == stamp_request(tsa_url@, data@),
{
    Request {
        url: tsa_url.to_owned(),
        content_type: Some("application/timestamp-query".to_owned()),
        body: build_timestamp_request(data),
    }
}

/// The first step of adding a document timestamp over the whole file.
pub open spec fn document_stamp_step(pdf: Seq<u8>, tsa_url: Seq<char>, capacity: nat) -> StepView {
    match loaded(pdf) {
        Err(e) => StepView::Done(Err(e)),
        Ok(doc) => match timestamp_update(pdf, doc, capacity) {
            Err(e) => StepView::Done(Err(e)),
            Ok(buf) => match prepared(buf, capacity, pdf.len() as int) {
                Err(e) => StepView::Done(Err(e)),
                Ok((v, lt)) => StepView::Fetch(
                    stamp_request(tsa_url, to_sign(v, lt, capacity)),
                    PendingView::DocumentStamp { buf: v, lt, capacity },
                ),
            },
        },
    }
}

proof fn lemma_update_longer(pdf: Seq<u8>, doc: Doc, capacity: nat)
    ensures
        timestamp_update(pdf, doc, capacity) matches Ok(u) ==> pdf.len() < u.len() && u.take(pdf.len() as int) == pdf,
{
    if let Ok((s, size, root)) = timestamp_items(doc, capacity) {
        if let Some(prev) = crate::incremental::startxref(pdf) {
            law_update_keeps_original(
                pdf,
                s,
                size as u32,
                root,
                prev,
                crate::object::lookup(doc.trailer, lit("ID")),
            );
        }
    }
}

/// Add a document timestamp (`/DocTimeStamp`, `/SubFilter /ETSI.RFC3161`) over
/// the whole file as an incremental update — the archival anchor of PAdES-B-LTA.
/// The timestamp imprint is over the document byte range itself.
pub fn add_document_timestamp(pdf: &[u8], tsa_url: &str, capacity: usize) -> (r: Step)
    ensures
        r@ == document_stamp_step(pdf@, tsa_url@, capacity as nat),
        step_sound(r@),
{
    let buf: Vec<u8> = match build_doctimestamp_update(pdf, capacity) {
        Err(e) => {
            return failed(e);
        },
        Ok(b) => b,
    };
    proof {
        lemma_update_longer(pdf@, loaded(pdf@)->Ok_0, capacity as nat);
    }
    match prepare(buf, capacity, pdf.len()) {
        Err(e) => failed(e),
        Ok((v, lt)) => {
            let total: usize = v.len();
            let data: Vec<u8> = bytes_outside(&v, lt, lt + 2 + 2 * capacity);
            let request: Request = request_timestamp(tsa_url, &data);
            Step::Fetch(request, Pending::DocumentStamp { buf: v, lt, capacity })
        },
    }
}

/// The last step of adding a document timestamp: the token is written into the file.
pub open spec fn document_stamped(
    buf: Seq<u8>,
    lt: int,
    capacity: nat,
    reply: Result<Seq<u8>, ErrorView>,
) -> Result<Seq<u8>, ErrorView> {
    match reply {
        Err(e) => Err(e),
        Ok(body) => match token_in_reply(body) {
            Err(e) => Err(e),
            Ok(token) => filled(buf, lt, capacity, token),
        },
    }
}

// ---------------------------------------------------------------------------
// Validation material

/// The `i`-th thing to fetch of a collection.
pub open spec fn material_request(c: CollectionView, i: int) -> RequestView {
    if i < c.urls.len() {
        RequestView { url: c.urls[i], content_type: None, body: Seq::empty() }
    } else {
        let q = c.queries[i - c.urls.len()];
        RequestView { url: q.0, content_type: Some("application/ocsp-request"@), body: q.1 }
    }
}

/// The material of a collection: CRLs and OCSP responses sorted, each once.
pub open spec fn material_of(c: CollectionView) -> MaterialView {
    MaterialView { certs: c.certs, crls: sorted(c.crls), ocsps: sorted(c.ocsps) }
}

/// The step after the DSS was added: at the archival level a document timestamp,
/// for which an authority must be given.
pub open spec fn after_dss(job: JobView, buf: Seq<u8>) -> StepView {
    if job.level.rank() < PadesLevel::Blta.rank() {
        StepView::Done(Ok(buf))
    } else {
        match job.tsa_url {
            None => StepView::Done(Err(authority_missing(job.level))),
            Some(url) => document_stamp_step(buf, url, job.capacity),
        }
    }
}

/// The step with a collection: fetch what is next, or add the DSS.
pub open spec fn next_material(job: JobView, buf: Seq<u8>, c: CollectionView) -> StepView {
    if c.next < c.urls.len() + c.queries.len() {
        StepView::Fetch(
            material_request(c, c.next as int),
            PendingView::Material { job, buf, collection: c },
        )
    } else {
        match dss_appended(buf, material_of(c)) {
            Err(e) => StepView::Done(Err(e)),
            Ok(v) => after_dss(job, v),
        }
    }
}

/// The collection that a signature starts with.
pub open spec fn collection_for(certs: Seq<Seq<u8>>) -> CollectionView {
    let parsed = certificates_of(certs);
    CollectionView {
        certs,
        urls: distinct(all_crl_urls(parsed)),
        queries: ocsp_queries(parsed, parsed),
        crls: Seq::empty(),
        ocsps: Seq::empty(),
        next: 0,
    }
}

/// A collection with the reply to what was fetched. A failed fetch, and a reply that
/// is not what was asked for, are left out.
pub open spec fn with_reply(c: CollectionView, reply: Result<Seq<u8>, ErrorView>) -> CollectionView {
    CollectionView {
        certs: c.certs,
        urls: c.urls,
        queries: c.queries,
        crls: if c.next < c.urls.len() && (reply matches Ok(b) && is_crl_reply(b)) {
            c.crls.push(reply->Ok_0)
        } else {
            c.crls
        },
        ocsps: if c.next >= c.urls.len() && (reply matches Ok(b) && ocsp_successful(b) == Some(true)) {
            c.ocsps.push(reply->Ok_0)
        } else {
            c.ocsps
        },
        next: c.next + 1,
    }
}

/// The step after the signature was written.
pub open spec fn after_signature(job: JobView, buf: Seq<u8>, cms: Seq<u8>) -> StepView {
    if job.level.rank() < PadesLevel::Blt.rank() {
        StepView::Done(Ok(buf))
    } else {
        match material_certs(cms) {
            Err(e) => StepView::Done(Err(e)),
            Ok(certs) => next_material(job, buf, collection_for(certs)),
        }
    }
}

/// The step with a signature: it is written into the file.
pub open spec fn with_signature(job: JobView, buf: Seq<u8>, lt: int, cms: Seq<u8>) -> StepView {
    match filled(buf, lt, job.capacity, cms) {
        Err(e) => StepView::Done(Err(e)),
        Ok(v) => after_signature(job, v, cms),
    }
}

fn step_after_dss(job: Job, buf: Vec<u8>) -> (r: Step)
    ensures
        r@ == after_dss(job@, buf@),
        step_sound(r@),
{
    if !job.level.includes(PadesLevel::Blta) {
        return Step::Done(Ok(buf));
    }
    match &job.tsa_url {
        None => failed(no_authority(job.level)),
        Some(url) => add_document_timestamp(&buf, url.as_str(), job.capacity),
    }
}

fn step_material(job: Job, buf: Vec<u8>, c: Collection) -> (r: Step)
    requires
        c@.next <= c@.urls.len() + c@.queries.len(),
    ensures
        r@ == next_material(job@, buf@, c@),
        step_sound(r@),
{
    let urls: u128 = c.urls.len() as u128;
    if c.next < urls {
        let n: usize = c.next as usize;
        assert(c@.urls[n as int] == c.urls@[n as int]@);
        let request: Request = Request { url: c.urls[n].clone(), content_type: None, body: Vec::new() };
        assert(request@.body =~= Seq::empty());
        return Step::Fetch(request, Pending::Material { job, buf, collection: c });
    }
    if c.next - urls < c.queries.len() as u128 {
        let k: usize = (c.next - urls) as usize;
        assert(c@.queries[k as int] == (c.queries@[k as int].0@, c.queries@[k as int].1@));
        let request: Request = Request {
            url: c.queries[k].0.clone(),
            content_type: Some("application/ocsp-request".to_owned()),
            body: to_vec(&c.queries[k].1),
        };
        return Step::Fetch(request, Pending::Material { job, buf, collection: c });
    }
    let material: ValidationMaterial = ValidationMaterial {
        certs: copy_blobs(&c.certs),
        crls: sort_blobs(&c.crls),
        ocsps: sort_blobs(&c.ocsps),
    };
    match add_dss(&buf, &material) {
        Err(e) => failed(e),
        Ok(v) => step_after_dss(job, v),
    }
}

fn step_signature(job: Job, buf: Vec<u8>, lt: usize, cms: Vec<u8>) -> (r: Step)
    requires
        lt + 1 + 2 * job@.capacity < buf.len(),
    ensures
        r@ == with_signature(job@, buf@, lt as int, cms@),
        step_sound(r@),
{
    let mut buf: Vec<u8> = buf;
    match fill_contents(&mut buf, lt, job.capacity, &cms) {
        Err(e) => {
            return failed(e);
        },
        Ok(()) => {},
    }
    if !job.level.includes(PadesLevel::Blt) {
        return Step::Done(Ok(buf));
    }
    let certs: Vec<Vec<u8>> = match collect_material_certs(&cms) {
        Err(e) => {
            return failed(e);
        },
        Ok(c) => c,
    };
    let parsed: Vec<Certificate> = parse_certificates(&certs);
    let c: Collection = Collection {
        urls: crl_urls(&parsed),
        queries: make_queries(&parsed),
        certs,
        crls: Vec::new(),
        ocsps: Vec::new(),
        next: 0,
    };
    proof {
        assert(c@.crls =~= Seq::empty());
        assert(c@.ocsps =~= Seq::empty());
    }
    step_material(job, buf, c)
}

// ---------------------------------------------------------------------------
// Signing

/// The job that the options leave.
pub open spec fn job_of(opts: SignOptions) -> JobView {
    JobView {
        level: opts.pades_level,
        tsa_url: match opts.tsa_url {
            Some(u) => Some(u@),
            None => None,
        },
        capacity: opts.signature_capacity as nat,
    }
}

/// The name of a level that needs a time-stamping authority.
pub open spec fn level_name(level: PadesLevel) -> Seq<char> {
    match level {
        PadesLevel::Bb => "PAdES-B-B"@,
        PadesLevel::Bt => "PAdES-B-T"@,
        PadesLevel::Blt => "PAdES-B-LT"@,
        PadesLevel::Blta => "PAdES-B-LTA"@,
    }
}

/// The error for a level that needs a time-stamping authority where none is given.
pub open spec fn authority_missing(level: PadesLevel) -> ErrorView {
    ErrorView::Crypto(level_name(level) + " requires a tsa_url"@)
}

fn no_authority(level: PadesLevel) -> (r: Error)
    ensures
        r@ == authority_missing(level),
{
    let name: &str = match level {
        PadesLevel::Bb => "PAdES-B-B",
        PadesLevel::Bt => "PAdES-B-T",
        PadesLevel::Blt => "PAdES-B-LT",
        PadesLevel::Blta => "PAdES-B-LTA",
    };
    Error::Crypto(name.to_owned().concat(" requires a tsa_url"))
}

/// The step with a fresh CMS signature: the signature as it is at the baseline level; a
/// signature timestamp at B-T and above, for which an authority must be given.
pub open spec fn with_cms(job: JobView, buf: Seq<u8>, lt: int, cms: Seq<u8>) -> StepView {
    if job.level.rank() < PadesLevel::Bt.rank() {
        with_signature(job, buf, lt, cms)
    } else {
        match job.tsa_url {
            None => StepView::Done(Err(authority_missing(job.level))),
            Some(url) => match stamp_subject(cms) {
                Err(e) => StepView::Done(Err(e)),
                Ok(signature) => StepView::Fetch(
                    stamp_request(url, signature),
                    PendingView::SignatureStamp { job, buf, lt, cms },
                ),
            },
        }
    }
}

/// The first step of signing a document at a time in seconds since the Unix epoch.
pub open spec fn first_step(
    pdf: Seq<u8>,
    p12: Seq<u8>,
    password: Seq<char>,
    opts: SignOptions,
    now: u64,
) -> StepView {
    match loaded(pdf) {
        Err(e) => StepView::Done(Err(e)),
        Ok(doc) => match signature_update(pdf, doc, opts) {
            Err(e) => StepView::Done(Err(e)),
            Ok(buf) => step_with_update(pdf, buf, p12, password, opts, now),
        },
    }
}

/// The step with the update that carries the signature field: everything but the
/// `/Contents` hole is signed.
pub open spec fn step_with_update(
    pdf: Seq<u8>,
    buf: Seq<u8>,
    p12: Seq<u8>,
    password: Seq<char>,
    opts: SignOptions,
    now: u64,
) -> StepView {
    match prepared(buf, opts.signature_capacity as nat, pdf.len() as int) {
        Err(e) => StepView::Done(Err(e)),
        Ok((v, lt)) => match keystore_signature(p12, password, to_sign(v, lt, opts.signature_capacity as nat), now) {
            Err(e) => StepView::Done(Err(e)),
            Ok(cms) => with_cms(job_of(opts), v, lt, cms),
        },
    }
}

/// What the first step signs and with what: the file with its byte range written, where
/// the `<` of the contents stands, and the CMS signature over the rest.
pub open spec fn first_signature(
    pdf: Seq<u8>,
    p12: Seq<u8>,
    password: Seq<char>,
    opts: SignOptions,
    now: u64,
) -> Option<(Seq<u8>, int, Seq<u8>)> {
    let capacity = opts.signature_capacity as nat;
    match loaded(pdf) {
        Err(_) => None,
        Ok(doc) => match signature_update(pdf, doc, opts) {
            Err(_) => None,
            Ok(buf) => match prepared(buf, capacity, pdf.len() as int) {
                Err(_) => None,
                Ok((v, lt)) => match keystore_signature(p12, password, to_sign(v, lt, capacity), now) {
                    Err(_) => None,
                    Ok(cms) => Some((v, lt, cms)),
                },
            },
        },
    }
}

/// Signed data has exactly one signer.
pub open spec fn has_one_signer(cms: Seq<u8>) -> bool {
    cms_signer(cms) matches Ok(Some(h)) && h.count == 1
}

/// The CMS signature that the first step makes is a DER sequence by one signer, made by
/// the key chain of the keystore over the bytes that are signed, and verifies over them
/// where the keystore's first certificate belongs to its key.
pub open spec fn first_signature_holds(
    pdf: Seq<u8>,
    p12: Seq<u8>,
    password: Seq<char>,
    opts: SignOptions,
    now: u64,
) -> bool {
    match (first_signature(pdf, p12, password, opts, now), keystore_of(p12, password)) {
        (Some((v, lt, cms)), Ok(Some(chain))) => framed(cms) && has_one_signer(cms) && verifies_for(
            cms,
            to_sign(v, lt, opts.signature_capacity as nat),
            chain,
        ) && made_by(cms, to_sign(v, lt, opts.signature_capacity as nat), chain, now),
        (Some(_), _) => false,
        (None, _) => true,
    }
}

proof fn lemma_signature_update_longer(pdf: Seq<u8>, doc: Doc, opts: SignOptions)
    ensures
        signature_update(pdf, doc, opts) matches Ok(u) ==> pdf.len() < u.len() && u.take(pdf.len() as int) == pdf,
{
    if let Ok((s, size, root)) = signature_items(doc, opts) {
        if let Some(prev) = crate::incremental::startxref(pdf) {
            law_update_keeps_original(
                pdf,
                s,
                size as u32,
                root,
                prev,
                crate::object::lookup(doc.trailer, lit("ID")),
            );
        }
    }
}

/// Sign an in-memory PDF with an in-memory PKCS#12 keystore at the time `now`
/// (seconds since the Unix epoch): the first step.
///
/// The update keeps the original bytes verbatim, so any prior signature stays valid.
/// Its placeholders live in the appended region; they are searched from there, so
/// that a previous signature's already-filled `/ByteRange` or `/Contents` is never
/// hit.
pub fn sign_pdf_bytes_at(pdf: &[u8], keystore_p12: &[u8], password: &str, opts: &SignOptions, now: u64) -> (r: Step)
    ensures
        r@ == first_step(pdf@, keystore_p12@, password@, *opts, now),
        step_sound(r@),
        first_signature_holds(pdf@, keystore_p12@, password@, *opts, now),
        adds_valid_signature(pdf@, keystore_p12@, password@, *opts, now),
{
    match ready_update(pdf, opts) {
        Err(e) => {
            proof {
                lemma_adds_valid_signature(pdf@, keystore_p12@, password@, *opts, now);
            }
            failed(e)
        },
        Ok((buf, lt)) => sign_ready(pdf, buf, lt, keystore_p12, password, opts, now),
    }
}

/// The file with the update that carries the signature field, its byte range written, and
/// where the `<` of its contents stands.
pub open spec fn readied(pdf: Seq<u8>, opts: SignOptions) -> Result<(Seq<u8>, int), ErrorView> {
    match loaded(pdf) {
        Err(e) => Err(e),
        Ok(doc) => match signature_update(pdf, doc, opts) {
            Err(e) => Err(e),
            Ok(buf) => prepared(buf, opts.signature_capacity as nat, pdf.len() as int),
        },
    }
}

fn ready_update(pdf: &[u8], opts: &SignOptions) -> (r: Result<(Vec<u8>, usize), Error>)
    ensures
        match readied(pdf@, *opts) {
            Ok((v, lt)) => r matches Ok((b, l)) && b@ == v && l == lt && l + 1 + 2 * opts.signature_capacity < b.len(),
            Err(e) => r is Err && r->Err_0@ == e,
        },
{
    let buf: Vec<u8> = match build_incremental_update(pdf, opts) {
        Err(e) => {
            return Err(e);
        },
        Ok(b) => b,
    };
    proof {
        lemma_signature_update_longer(pdf@, loaded(pdf@)->Ok_0, *opts);
    }
    prepare(buf, opts.signature_capacity, pdf.len())
}

/// Signs a file that is ready for it.
fn sign_ready(
    pdf: &[u8],
    buf: Vec<u8>,
    lt: usize,
    keystore_p12: &[u8],
    password: &str,
    opts: &SignOptions,
    now: u64,
) -> (r: Step)
    requires
        readied(pdf@, *opts) == Ok::<(Seq<u8>, int), ErrorView>((buf@, lt as int)),
        lt + 1 + 2 * opts.signature_capacity < buf.len(),
    ensures
        r@ == first_step(pdf@, keystore_p12@, password@, *opts, now),
        step_sound(r@),
        first_signature_holds(pdf@, keystore_p12@, password@, *opts, now),
        adds_valid_signature(pdf@, keystore_p12@, password@, *opts, now),
{
    let r: Step = sign_buffer(pdf, buf, lt, keystore_p12, password, opts, now);
    proof {
        lemma_adds_valid_signature(pdf@, keystore_p12@, password@, *opts, now);
    }
    r
}

fn sign_buffer(
    pdf: &[u8],
    buf: Vec<u8>,
    lt: usize,
    keystore_p12: &[u8],
    password: &str,
    opts: &SignOptions,
    now: u64,
) -> (r: Step)
    requires
        readied(pdf@, *opts) == Ok::<(Seq<u8>, int), ErrorView>((buf@, lt as int)),
        lt + 1 + 2 * opts.signature_capacity < buf.len(),
    ensures
        r@ == first_step(pdf@, keystore_p12@, password@, *opts, now),
        step_sound(r@),
        first_signature_holds(pdf@, keystore_p12@, password@, *opts, now),
{
    let capacity: usize = opts.signature_capacity;
    let total: usize = buf.len();
    let data: Vec<u8> = bytes_outside(&buf, lt, lt + 2 + 2 * capacity);
    let cms: Vec<u8> = match cms_sign(keystore_p12, password, &data, now) {
        Err(e) => {
            return failed(e);
        },
        Ok(c) => c,
    };
    let tsa_url: Option<String> = match &opts.tsa_url {
        Some(u) => Some(u.clone()),
        None => None,
    };
    let job: Job = Job { level: opts.pades_level, tsa_url, capacity };
    if !job.level.includes(PadesLevel::Bt) {
        return step_signature(job, buf, lt, cms);
    }
    let request: Request = match &job.tsa_url {
        None => {
            return failed(no_authority(job.level));
        },
        Some(url) => match signature_to_stamp(&cms) {
            Err(e) => {
                return failed(e);
            },
            Ok(signature) => request_timestamp(url.as_str(), &signature),
        },
    };
    Step::Fetch(request, Pending::SignatureStamp { job, buf, lt, cms })
}

/// Sign an in-memory PDF with an in-memory PKCS#12 keystore: the first step. The
/// signing time is the current time; what time it is, is not known here. A document that
/// cannot be updated is an error whatever the clock gives; otherwise a clock that gives
/// no time is one.
pub fn sign_pdf_bytes(pdf: &[u8], keystore_p12: &[u8], password: &str, opts: &SignOptions) -> (r: Step)
    ensures
        step_sound(r@),
        readied(pdf@, *opts) matches Err(e) ==> r@ == StepView::Done(Err(e)),
        (r@ matches StepView::Done(Err(ErrorView::Crypto(_)))) || exists|now: u64|
            r@ == #[trigger] first_step(pdf@, keystore_p12@, password@, *opts, now) && first_signature_holds(
                pdf@,
                keystore_p12@,
                password@,
                *opts,
                now,
            ) && adds_valid_signature(pdf@, keystore_p12@, password@, *opts, now),
{
    match ready_update(pdf, opts) {
        Err(e) => {
            proof {
                assert(first_step(pdf@, keystore_p12@, password@, *opts, 0) == StepView::Done(Err(e@)));
                lemma_adds_valid_signature(pdf@, keystore_p12@, password@, *opts, 0);
            }
            failed(e)
        },
        Ok((buf, lt)) => match unix_now() {
            Err(t) => failed(Error::Crypto(t)),
            Ok(now) => sign_ready(pdf, buf, lt, keystore_p12, password, opts, now),
        },
    }
}

/// The signature with the timestamp of a reply, where there is one.
pub open spec fn stamped_reply(cms: Seq<u8>, reply: Result<Seq<u8>, ErrorView>) -> Option<Seq<u8>> {
    match reply {
        Err(_) => None,
        Ok(body) => match token_in_reply(body) {
            Err(_) => None,
            Ok(token) => match stamped(cms, token) {
                Err(_) => None,
                Ok(w) => Some(w),
            },
        },
    }
}

/// A stamped signature is a DER sequence, and reads as the signature did where that had
/// one signer, so that it keeps its verdict.
pub open spec fn stamp_keeps(cms: Seq<u8>, w: Seq<u8>) -> bool {
    framed(w) && (has_one_signer(cms) ==> cms_of(w) == cms_of(cms) && cms_signer(w) == cms_signer(cms)
        && signed_values_at(w, 0) == signed_values_at(cms, 0) && cms_certificates(w) == cms_certificates(cms))
}

/// The timestamp of a reply to what waits, if it is one for a signature, keeps the
/// verdict of the signature.
pub open spec fn reply_keeps(p: PendingView, reply: Result<Seq<u8>, ErrorView>) -> bool {
    p matches PendingView::SignatureStamp { job, buf, lt, cms } ==> (stamped_reply(cms, reply) matches Some(w)
        ==> stamp_keeps(cms, w))
}

/// The step after a reply.
pub open spec fn next_step(p: PendingView, reply: Result<Seq<u8>, ErrorView>) -> StepView {
    match p {
        PendingView::SignatureStamp { job, buf, lt, cms } => match reply {
            Err(e) => StepView::Done(Err(e)),
            Ok(body) => match token_in_reply(body) {
                Err(e) => StepView::Done(Err(e)),
                Ok(token) => match stamped(cms, token) {
                    Err(e) => StepView::Done(Err(e)),
                    Ok(v) => with_signature(job, buf, lt, v),
                },
            },
        },
        PendingView::Material { job, buf, collection } => next_material(job, buf, with_reply(collection, reply)),
        PendingView::DocumentStamp { buf, lt, capacity } => StepView::Done(document_stamped(buf, lt, capacity, reply)),
    }
}

fn take_signature_stamp(job: Job, buf: Vec<u8>, lt: usize, cms: Vec<u8>, reply: Result<Vec<u8>, Error>) -> (r: Step)
    requires
        lt + 1 + 2 * job@.capacity < buf.len(),
    ensures
        r@ == next_step(
            PendingView::SignatureStamp { job: job@, buf: buf@, lt: lt as int, cms: cms@ },
            bytes_result(reply),
        ),
        step_sound(r@),
        stamped_reply(cms@, bytes_result(reply)) matches Some(w) ==> stamp_keeps(cms@, w),
{
    match reply {
        Err(e) => failed(e),
        Ok(body) => match read_timestamp_reply(&body) {
            Err(e) => failed(e),
            Ok(token) => match apply_timestamp(&cms, &token) {
                Err(e) => failed(e),
                Ok(v) => step_signature(job, buf, lt, v),
            },
        },
    }
}

fn take_material(collection: Collection, reply: Result<Vec<u8>, Error>) -> (r: Collection)
    requires
        collection@.next < collection@.urls.len() + collection@.queries.len(),
    ensures
        r@ == with_reply(collection@, bytes_result(reply)),
{
    let mut c: Collection = collection;
    let urls: u128 = c.urls.len() as u128;
    let total: u128 = urls + c.queries.len() as u128;
    if let Ok(body) = reply {
        if c.next < urls {
            if accepts_crl(&body) {
                let ghost crls = blobs(c.crls@);
                let ghost b = body@;
                c.crls.push(body);
                assert(blobs(c.crls@) =~= crls.push(b));
            }
        } else {
            if accepts_ocsp(&body) {
                let ghost ocsps = blobs(c.ocsps@);
                let ghost b = body@;
                c.ocsps.push(body);
                assert(blobs(c.ocsps@) =~= ocsps.push(b));
            }
        }
    }
    c.next = c.next + 1;
    c
}

fn take_document_stamp(buf: Vec<u8>, lt: usize, capacity: usize, reply: Result<Vec<u8>, Error>) -> (r: Result<
    Vec<u8>,
    Error,
>)
    requires
        lt + 1 + 2 * capacity < buf.len(),
    ensures
        bytes_result(r) == document_stamped(buf@, lt as int, capacity as nat, bytes_result(reply)),
{
    match reply {
        Err(e) => Err(e),
        Ok(body) => match read_timestamp_reply(&body) {
            Err(e) => Err(e),
            Ok(token) => {
                let mut buf: Vec<u8> = buf;
                match fill_contents(&mut buf, lt, capacity, &token) {
                    Err(e) => Err(e),
                    Ok(()) => Ok(buf),
                }
            },
        },
    }
}

/// Go on with the reply to what was fetched: the body that came back, or why none did.
/// A timestamp that is embedded in a signature keeps the signature's verdict.
pub fn resume(pending: Pending, reply: Result<Vec<u8>, Error>) -> (r: Step)
    requires
        sound(pending@),
    ensures
        r@ == next_step(pending@, bytes_result(reply)),
        step_sound(r@),
        reply_keeps(pending@, bytes_result(reply)),
{
    match pending {
        Pending::SignatureStamp { job, buf, lt, cms } => take_signature_stamp(job, buf, lt, cms, reply),
        Pending::Material { job, buf, collection } => step_material(job, buf, take_material(collection, reply)),
        Pending::DocumentStamp { buf, lt, capacity } => Step::Done(take_document_stamp(buf, lt, capacity, reply)),
    }
}

/// The step that signing has come to with replies to what was fetched, one for each.
pub open spec fn run(s: StepView, replies: Seq<Result<Seq<u8>, ErrorView>>) -> StepView
    decreases replies.len(),
{
    match s {
        StepView::Done(_) => s,
        StepView::Fetch(_, p) => if replies.len() == 0 {
            s
        } else {
            run(next_step(p, replies[0]), replies.skip(1))
        },
    }
}

/// The CMS signature that goes into the file: the one that was made, from B-T on with the
/// timestamp of the first reply.
pub open spec fn embedded_cms(
    level: PadesLevel,
    cms: Seq<u8>,
    replies: Seq<Result<Seq<u8>, ErrorView>>,
) -> Option<Seq<u8>> {
    if level.rank() < PadesLevel::Bt.rank() {
        Some(cms)
    } else if replies.len() == 0 {
        None
    } else {
        stamped_reply(cms, replies[0])
    }
}

/// The timestamp of the first reply keeps the verdict of the signature that the first step
/// makes.
pub open spec fn first_reply_keeps(
    pdf: Seq<u8>,
    p12: Seq<u8>,
    password: Seq<char>,
    opts: SignOptions,
    now: u64,
    replies: Seq<Result<Seq<u8>, ErrorView>>,
) -> bool {
    match (first_step(pdf, p12, password, opts, now), replies.len() > 0) {
        (StepView::Fetch(_, p), true) => reply_keeps(p, replies[0]),
        _ => true,
    }
}

} // verus!
