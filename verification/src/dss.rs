//! Document Security Store (DSS) for PAdES-B-LT.
//!
//! The validation material — every certificate involved (signer chain plus the TSA
//! chain embedded in the signature timestamp) and, best-effort, the CRLs and OCSP
//! responses for those certificates — is embedded in a `/DSS` dictionary added to
//! the document catalog via an incremental update. This is what lets a signature
//! be validated long after the issuing CA / TSA services are gone.
use vstd::prelude::*;

use crate::appearance::{add_fresh, alloc_id, fresh, new_stream, stream_obj};
use crate::document::{
    dict_at, load_document, loaded, object_at, root_of, stream_bytes, stream_data, Doc, Document,
};
use crate::error::{bytes_result, malformed, Error, ErrorView};
use crate::incremental::{Incremental, Item};
use crate::object::{lemma_objs, lookup, objs, put, Dict, Dictionary, Obj, Object, ObjectId};
use crate::update::{add_object, append_update, appended, numbers_exhausted};
use crate::util::{blobs, lit, to_vec};

verus! {

/// Certificates, CRLs and OCSP responses to embed in the DSS (all DER-encoded).
#[derive(Debug)]
pub struct ValidationMaterial {
    pub certs: Vec<Vec<u8>>,
    pub crls: Vec<Vec<u8>>,
    pub ocsps: Vec<Vec<u8>>,
}

/// Validation material as a mathematical value.
pub struct MaterialView {
    pub certs: Seq<Seq<u8>>,
    pub crls: Seq<Seq<u8>>,
    pub ocsps: Seq<Seq<u8>>,
}

impl ValidationMaterial {
    pub open spec fn view(&self) -> MaterialView {
        MaterialView { certs: blobs(self.certs@), crls: blobs(self.crls@), ocsps: blobs(self.ocsps@) }
    }
}

// ---------------------------------------------------------------------------
// Embedding

/// A stream object whose content is the given DER blob (no filter).
pub open spec fn der_stream_obj(der: Seq<u8>) -> Obj {
    stream_obj(Seq::empty(), der)
}

/// The items with a stream for each blob among them, from object number `n` on.
pub open spec fn streams_added(s: Seq<Item>, n: int, ders: Seq<Seq<u8>>) -> Seq<Item>
    decreases ders.len(),
{
    if ders.len() == 0 {
        s
    } else {
        add_fresh(streams_added(s, n, ders.drop_last()), n + ders.len() - 1, der_stream_obj(ders.last()))
    }
}

/// References to `k` objects from number `n` on.
pub open spec fn references(n: int, k: nat) -> Seq<Obj> {
    Seq::new(k, |i: int| Obj::Reference(fresh(n + i)))
}

/// A dictionary with an array of references under a key, unless it is empty.
pub open spec fn put_references(d: Dict, key: Seq<u8>, n: int, k: nat) -> Dict {
    if k == 0 {
        d
    } else {
        put(d, key, Obj::Array(references(n, k)))
    }
}

/// The `/DSS` dictionary for material whose streams stand from object number `n` on.
pub open spec fn dss_dict(n: int, m: MaterialView) -> Dict {
    let d = put_references(Seq::empty(), lit("Certs"), n, m.certs.len());
    let d = put_references(d, lit("CRLs"), n + m.certs.len(), m.crls.len());
    put_references(d, lit("OCSPs"), n + m.certs.len() + m.crls.len(), m.ocsps.len())
}

/// The streams of the material, from object number `n` on.
pub open spec fn material_added(n: int, m: MaterialView) -> Seq<Item> {
    let s = streams_added(Seq::empty(), n, m.certs);
    let s = streams_added(s, n + m.certs.len(), m.crls);
    streams_added(s, n + m.certs.len() + m.crls.len(), m.ocsps)
}

/// How many streams the material takes.
pub open spec fn material_size(m: MaterialView) -> nat {
    m.certs.len() + m.crls.len() + m.ocsps.len()
}

/// The items of an update that adds the material to the catalog, which is kept
/// but for its `/DSS` entry; the new `/Size`; and the catalog's number.
pub open spec fn dss_items(doc: Doc, m: MaterialView) -> Result<(Seq<Item>, int, ObjectId), ErrorView> {
    match root_of(doc) {
        Err(e) => Err(e),
        Ok(root) => if doc.max_id + 1 + material_size(m) > u32::MAX {
            Err(numbers_exhausted())
        } else {
            match dict_at(doc, root) {
                Err(e) => Err(e),
                Ok(catalog) => {
                    let n = doc.max_id + 1;
                    Ok(
                        (
                            add_object(
                                material_added(n, m),
                                root,
                                Obj::Dictionary(put(catalog, lit("DSS"), Obj::Dictionary(dss_dict(n, m)))),
                            ),
                            n + material_size(m),
                            root,
                        ),
                    )
                },
            }
        },
    }
}

/// The document with the material appended.
pub open spec fn dss_update(pdf: Seq<u8>, doc: Doc, m: MaterialView) -> Result<Seq<u8>, ErrorView> {
    match dss_items(doc, m) {
        Err(e) => Err(e),
        Ok((s, size, root)) => appended(pdf, doc, s, size, root),
    }
}

/// A stream object whose content is the given DER blob (no filter).
fn der_stream(der: &[u8]) -> (r: Object)
    ensures
        r@ == der_stream_obj(der@),
{
    new_stream(Dictionary::new(), to_vec(der))
}

/// Adds a stream for each blob, and returns the references to them.
fn add_streams(inc: &mut Incremental, next_id: &mut u64, ders: &Vec<Vec<u8>>) -> (r: Vec<Object>)
    requires
        old(inc).wf(),
        *old(next_id) + ders.len() <= u64::MAX,
    ensures
        final(inc).wf(),
        final(inc).base() == old(inc).base(),
        final(inc)@ == streams_added(old(inc)@, *old(next_id) as int, blobs(ders@)),
        *final(next_id) == *old(next_id) + ders.len(),
        objs(r@) == references(*old(next_id) as int, ders@.len()),
        r@.len() == ders@.len(),
{
    let ghost s = inc@;
    let ghost n = *next_id as int;
    let mut refs: Vec<Object> = Vec::new();
    let mut i: usize = 0;
    assert(blobs(ders@).take(0) =~= Seq::empty());
    while i < ders.len()
        invariant
            i <= ders.len(),
            inc.wf(),
            inc.base() == old(inc).base(),
            n + ders.len() <= u64::MAX,
            *next_id == n + i,
            inc@ == streams_added(s, n, blobs(ders@).take(i as int)),
            refs@.len() == i,
            forall|k: int| 0 <= k < i ==> (#[trigger] refs@[k])@ == Obj::Reference(fresh(n + k)),
        decreases ders.len() - i,
    {
        let id: ObjectId = alloc_id(next_id);
        inc.add(id, der_stream(&ders[i]));
        proof {
            let t = blobs(ders@).take(i + 1);
            assert(t.drop_last() =~= blobs(ders@).take(i as int));
            assert(t.last() == ders@[i as int]@);
        }
        let o: Object = Object::Reference(id);
        assert(o@ == Obj::Reference(id));
        refs.push(o);
        i += 1;
    }
    proof {
        assert(blobs(ders@).take(i as int) =~= blobs(ders@));
        lemma_objs(refs@);
        assert(objs(refs@) =~= references(n, ders@.len()));
    }
    refs
}

/// Append a `/DSS` dictionary (with `/Certs`, `/CRLs` and `/OCSPs`) to the catalog
/// of a parsed document as an incremental update.
pub fn add_dss_to_document(pdf: &[u8], doc: &Document, material: &ValidationMaterial) -> (r: Result<Vec<u8>, Error>)
    ensures
        bytes_result(r) == dss_update(pdf@, doc@, material@),
{
    let root_id: ObjectId = match doc.root_id() {
        Err(e) => {
            return Err(e);
        },
        Ok(id) => id,
    };
    let total: u128 = doc.max_id as u128 + 1 + material.certs.len() as u128 + material.crls.len() as u128
        + material.ocsps.len() as u128;
    if total > u32::MAX as u128 {
        return Err(malformed("no free object numbers"));
    }
    let mut inc: Incremental = Incremental::new(pdf);
    let mut next_id: u64 = doc.max_id as u64 + 1;
    let mut dss: Dictionary = Dictionary::new();

    let cert_refs: Vec<Object> = add_streams(&mut inc, &mut next_id, &material.certs);
    if cert_refs.len() > 0 {
        dss.set("Certs", Object::Array(cert_refs));
    }
    let crl_refs: Vec<Object> = add_streams(&mut inc, &mut next_id, &material.crls);
    if crl_refs.len() > 0 {
        dss.set("CRLs", Object::Array(crl_refs));
    }
    let ocsp_refs: Vec<Object> = add_streams(&mut inc, &mut next_id, &material.ocsps);
    if ocsp_refs.len() > 0 {
        dss.set("OCSPs", Object::Array(ocsp_refs));
    }

    let mut catalog: Dictionary = match doc.get_dict(root_id) {
        Err(e) => {
            return Err(e);
        },
        Ok(d) => d.copy(),
    };
    catalog.set("DSS", Object::Dictionary(dss));
    inc.add(root_id, Object::Dictionary(catalog));
    append_update(pdf, doc, &inc, next_id, root_id)
}

/// The document in the bytes with the material appended.
pub open spec fn dss_appended(pdf: Seq<u8>, m: MaterialView) -> Result<Seq<u8>, ErrorView> {
    match loaded(pdf) {
        Err(e) => Err(e),
        Ok(doc) => dss_update(pdf, doc, m),
    }
}

/// Append a `/DSS` dictionary (with `/Certs`, `/CRLs` and `/OCSPs`) to the catalog
/// as an incremental update.
pub fn add_dss(pdf: &[u8], material: &ValidationMaterial) -> (r: Result<Vec<u8>, Error>)
    ensures
        bytes_result(r) == dss_appended(pdf@, material@),
{
    match load_document(pdf) {
        Err(e) => Err(e),
        Ok(doc) => add_dss_to_document(pdf, &doc, material),
    }
}

// ---------------------------------------------------------------------------
// Extraction

/// The `/DSS` dictionary of a document, inline or by reference.
pub open spec fn dss_of(doc: Doc) -> Option<Dict> {
    match root_of(doc) {
        Err(_) => None,
        Ok(root) => match dict_at(doc, root) {
            Err(_) => None,
            Ok(catalog) => match lookup(catalog, lit("DSS")) {
                Some(Obj::Dictionary(d)) => Some(d),
                Some(Obj::Reference(r)) => match dict_at(doc, r) {
                    Ok(d) => Some(d),
                    Err(_) => None,
                },
                _ => None,
            },
        },
    }
}

/// What the streams hold that the objects refer to; what is no reference to a
/// stream is left out.
pub open spec fn streams_of(doc: Doc, a: Seq<Obj>) -> Seq<Seq<u8>>
    decreases a.len(),
{
    if a.len() == 0 {
        Seq::empty()
    } else {
        let r = streams_of(doc, a.drop_last());
        match a.last() {
            Obj::Reference(id) => match object_at(doc, id) {
                Ok(Obj::Stream(d, c)) => r.push(stream_data(d, c)),
                _ => r,
            },
            _ => r,
        }
    }
}

/// What the streams under a key of the `/DSS` dictionary hold.
pub open spec fn dss_streams(doc: Doc, key: Seq<u8>) -> Seq<Seq<u8>> {
    match dss_of(doc) {
        None => Seq::empty(),
        Some(dss) => match lookup(dss, key) {
            Some(Obj::Array(a)) => streams_of(doc, a),
            _ => Seq::empty(),
        },
    }
}

fn read_streams(doc: &Document, a: &Vec<Object>) -> (r: Vec<Vec<u8>>)
    ensures
        blobs(r@) == streams_of(doc@, objs(a@)),
{
    let mut out: Vec<Vec<u8>> = Vec::new();
    let ghost v = objs(a@);
    let mut i: usize = 0;
    proof {
        lemma_objs(a@);
        assert(v.take(0) =~= Seq::empty());
        assert(blobs(out@) =~= Seq::empty());
    }
    while i < a.len()
        invariant
            i <= a.len(),
            v == objs(a@),
            v.len() == a@.len(),
            forall|k: int| 0 <= k < a@.len() ==> #[trigger] v[k] == a@[k]@,
            blobs(out@) == streams_of(doc@, v.take(i as int)),
        decreases a.len() - i,
    {
        proof {
            let t = v.take(i + 1);
            assert(t.drop_last() =~= v.take(i as int));
            assert(t.last() == a@[i as int]@);
        }
        match &a[i] {
            Object::Reference(id) => match doc.get_object(*id) {
                Ok(o) => match o {
                    Object::Stream(s) => {
                        let data: Vec<u8> = stream_bytes(s);
                        let ghost before = blobs(out@);
                        let ghost x = data@;
                        out.push(data);
                        assert(blobs(out@) =~= before.push(x));
                    },
                    _ => {},
                },
                Err(_) => {},
            },
            _ => {},
        }
        i += 1;
    }
    assert(v.take(i as int) =~= v);
    out
}

fn no_blobs() -> (r: Vec<Vec<u8>>)
    ensures
        blobs(r@) == Seq::<Seq<u8>>::empty(),
{
    let r: Vec<Vec<u8>> = Vec::new();
    assert(blobs(r@) =~= Seq::empty());
    r
}

/// Extract the raw content of each stream referenced by `/DSS/<key>` of a parsed
/// document.
pub fn document_dss_streams(doc: &Document, key: &str) -> (r: Vec<Vec<u8>>)
    ensures
        blobs(r@) == dss_streams(doc@, lit(key)),
{
    let root_id: ObjectId = match doc.root_id() {
        Err(_) => {
            return no_blobs();
        },
        Ok(id) => id,
    };
    let catalog: &Dictionary = match doc.get_dict(root_id) {
        Err(_) => {
            return no_blobs();
        },
        Ok(d) => d,
    };
    let dss: &Dictionary = match catalog.get("DSS") {
        Some(Object::Dictionary(d)) => d,
        Some(Object::Reference(r)) => match doc.get_dict(*r) {
            Ok(d) => d,
            Err(_) => {
                return no_blobs();
            },
        },
        _ => {
            return no_blobs();
        },
    };
    match dss.get(key) {
        Some(Object::Array(a)) => read_streams(doc, a),
        _ => no_blobs(),
    }
}

/// What the streams under a key of the `/DSS` dictionary hold; nothing where the
/// bytes cannot be parsed.
pub open spec fn extracted(pdf: Seq<u8>, key: Seq<u8>) -> Seq<Seq<u8>> {
    match loaded(pdf) {
        Err(_) => Seq::empty(),
        Ok(doc) => dss_streams(doc, key),
    }
}

/// Extract the raw content of each stream referenced by `/DSS/<key>`.
fn extract_dss_streams(pdf: &[u8], key: &str) -> (r: Vec<Vec<u8>>)
    ensures
        blobs(r@) == extracted(pdf@, lit(key)),
{
    match load_document(pdf) {
        Err(_) => no_blobs(),
        Ok(doc) => document_dss_streams(&doc, key),
    }
}

/// Extract the DER of every CRL stored in the document's `/DSS /CRLs`.
pub fn extract_dss_crls(pdf: &[u8]) -> (r: Vec<Vec<u8>>)
    ensures
        blobs(r@) == extracted(pdf@, lit("CRLs")),
{
    extract_dss_streams(pdf, "CRLs")
}

/// Extract the DER of every OCSP response stored in `/DSS /OCSPs`.
pub fn extract_dss_ocsps(pdf: &[u8]) -> (r: Vec<Vec<u8>>)
    ensures
        blobs(r@) == extracted(pdf@, lit("OCSPs")),
{
    extract_dss_streams(pdf, "OCSPs")
}

} // verus!
