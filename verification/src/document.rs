//! A parsed document: its objects, its trailer and its pages.
use lopdf::Dictionary as PdfDictionary;
use lopdf::Object as PdfObject;
use lopdf::StringFormat as PdfStringFormat;
use vstd::prelude::*;

use crate::error::{Error, ErrorView};
use crate::filters::{coding_of, read_coding, undo_filters, undone};
use crate::object::{
    key_index, lookup, missing_key, missing_key_error, wrong_type, Dict, Dictionary, Obj, Object, ObjectId, Real, Stream,
    StringFormat,
};
use crate::reading::{is_readable, readable};
use crate::util::{append_dec, dec_text, to_vec, utf8};

verus! {

/// A parsed document.
#[derive(Debug)]
pub struct Document {
    /// The indirect objects by increasing number.
    pub objects: Vec<(ObjectId, Object)>,
    /// The trailer dictionary.
    pub trailer: Dictionary,
    /// The largest object number in use.
    pub max_id: u32,
    /// Page numbers, from one on, and the objects of the pages.
    pub pages: Vec<(u32, ObjectId)>,
}

/// A parsed document as a mathematical value.
pub struct Doc {
    pub objects: Seq<(ObjectId, Obj)>,
    pub trailer: Dict,
    pub max_id: u32,
    pub pages: Seq<(u32, ObjectId)>,
}

/// The indirect objects of a document.
pub open spec fn doc_objects(a: Seq<(ObjectId, Object)>) -> Seq<(ObjectId, Obj)> {
    Seq::new(a.len(), |i: int| (a[i].0, a[i].1@))
}

impl Document {
    pub open spec fn view(&self) -> Doc {
        Doc {
            objects: doc_objects(self.objects@),
            trailer: self.trailer@,
            max_id: self.max_id,
            pages: self.pages@,
        }
    }
}

// ---------------------------------------------------------------------------
// Loading

/// An object of the `lopdf` crate.
#[verifier::external_type_specification]
#[verifier::external_body]
pub struct ExPdfObject(PdfObject);

/// A dictionary of the `lopdf` crate.
#[verifier::external_type_specification]
#[verifier::external_body]
pub struct ExPdfDictionary(PdfDictionary);

/// Takes an object of `lopdf` that holds no other objects over, variant by variant.
/// Nothing is claimed of it here: what a whole document holds is named by
/// [`parsed_document`].
#[verifier::external_body]
fn atom_of(o: &PdfObject) -> Option<Object> {
    Some(match o {
        PdfObject::Null => Object::Null,
        PdfObject::Boolean(b) => Object::Boolean(*b),
        PdfObject::Integer(i) => Object::Integer(*i),
        PdfObject::Real(r) => Object::Real(Real { bits: r.to_bits(), text: r.to_string() }),
        PdfObject::Name(n) => Object::Name(n.clone()),
        PdfObject::String(s, PdfStringFormat::Literal) => Object::String(s.clone(), StringFormat::Literal),
        PdfObject::String(s, PdfStringFormat::Hexadecimal) => Object::String(s.clone(), StringFormat::Hexadecimal),
        PdfObject::Reference(id) => Object::Reference(*id),
        PdfObject::Array(_) | PdfObject::Dictionary(_) | PdfObject::Stream(_) => return None,
    })
}

/// Takes an object of `lopdf` over, variant by variant. Nothing is claimed of it
/// here: what a whole document holds is named by [`parsed_document`].
#[verifier::external_body]
fn object_of(o: &PdfObject) -> Object {
    match o {
        PdfObject::Array(a) => Object::Array(a.iter().map(object_of).collect()),
        PdfObject::Dictionary(d) => Object::Dictionary(dictionary_of(d)),
        PdfObject::Stream(s) => Object::Stream(Stream { dict: dictionary_of(&s.dict), content: s.content.clone() }),
        atom => atom_of(atom).unwrap_or(Object::Null),
    }
}

/// Takes a dictionary of `lopdf` over, entry by entry and in its order. Nothing
/// is claimed of it here: what a whole document holds is named by
/// [`parsed_document`].
#[verifier::external_body]
fn dictionary_of(d: &PdfDictionary) -> Dictionary {
    Dictionary { entries: d.iter().map(|(k, v)| (k.clone(), object_of(v))).collect() }
}

/// The document that the bytes of a file hold, or the text of the error for a
/// file that cannot be parsed.
pub uninterp spec fn parsed_document(pdf: Seq<u8>) -> Result<Doc, Seq<char>>;

/// Parses a document: `lopdf::Document::load_mem`, and `get_pages` of what it
/// returns. It takes readable files, for which the result is a function of the bytes
/// alone: its walk over a hash map goes by object streams of encrypted files, and a
/// readable file that is encrypted has none.
#[verifier::external_body]
fn load_mem(pdf: &[u8]) -> (r: Result<Document, String>)
    requires
        readable(pdf@),
    ensures
        match r {
            Ok(d) => parsed_document(pdf@) == Ok::<Doc, Seq<char>>(d@),
            Err(t) => parsed_document(pdf@) == Err::<Doc, Seq<char>>(t@),
        },
{
    let doc = lopdf::Document::load_mem(pdf).map_err(|e| e.to_string())?;
    Ok(Document {
        objects: doc.objects.iter().map(|(id, o)| (*id, object_of(o))).collect(),
        trailer: dictionary_of(&doc.trailer),
        max_id: doc.max_id,
        pages: doc.get_pages().into_iter().collect(),
    })
}

/// Gives an object that holds no other objects back to `lopdf`, variant by variant.
/// Nothing is claimed of it here: [`encode_content`] and [`save_document`] name what they
/// compute.
#[verifier::external_body]
fn to_pdf_atom(o: &Object) -> Option<PdfObject> {
    Some(match o {
        Object::Null => PdfObject::Null,
        Object::Boolean(b) => PdfObject::Boolean(*b),
        Object::Integer(i) => PdfObject::Integer(*i),
        Object::Real(r) => PdfObject::Real(r.text.parse().unwrap_or_default()),
        Object::Name(n) => PdfObject::Name(n.clone()),
        Object::String(s, StringFormat::Literal) => PdfObject::String(s.clone(), PdfStringFormat::Literal),
        Object::String(s, StringFormat::Hexadecimal) => PdfObject::String(s.clone(), PdfStringFormat::Hexadecimal),
        Object::Reference(id) => PdfObject::Reference(*id),
        Object::Array(_) | Object::Dictionary(_) | Object::Stream(_) => return None,
    })
}

/// Gives an object back to `lopdf`, variant by variant. Nothing is claimed of it
/// here: [`encode_content`] and [`save_document`] name what they compute.
#[verifier::external_body]
fn to_pdf_object(o: &Object) -> PdfObject {
    match o {
        Object::Array(a) => PdfObject::Array(a.iter().map(to_pdf_object).collect()),
        Object::Dictionary(d) => PdfObject::Dictionary(to_pdf_dictionary(d)),
        Object::Stream(s) => PdfObject::Stream(lopdf::Stream::new(to_pdf_dictionary(&s.dict), s.content.clone())),
        atom => to_pdf_atom(atom).unwrap_or(PdfObject::Null),
    }
}

/// Gives a dictionary back to `lopdf`, entry by entry. Nothing is claimed of it
/// here: [`encode_content`] and [`save_document`] name what they compute.
#[verifier::external_body]
fn to_pdf_dictionary(d: &Dictionary) -> PdfDictionary {
    PdfDictionary::from_iter(d.entries.iter().map(|(k, v)| (k.clone(), to_pdf_object(v))))
}

/// What a stream holds: its content after its filters, or as it stands where it has
/// none or they cannot be undone.
pub open spec fn stream_data(dict: Seq<(Seq<u8>, Obj)>, content: Seq<u8>) -> Seq<u8> {
    if lookup(dict, utf8("Filter"@)) is None {
        content
    } else {
        match coding_of(dict) {
            None => content,
            Some(c) => match undone(c, content) {
                Some(v) => v,
                None => content,
            },
        }
    }
}

/// What a stream holds: its content after its filters, or as it stands where it has
/// none or they cannot be undone.
pub fn stream_bytes(s: &Stream) -> (r: Vec<u8>)
    ensures
        r@ == stream_data(s.dict@, s.content@),
{
    if s.dict.get("Filter").is_none() {
        return to_vec(&s.content);
    }
    match read_coding(&s.dict) {
        None => to_vec(&s.content),
        Some(c) => match undo_filters(&c, &s.content) {
            Some(v) => v,
            None => to_vec(&s.content),
        },
    }
}

/// The operations of a content stream: operators and operands.
pub open spec fn operations(v: Seq<(String, Vec<Object>)>) -> Seq<(Seq<char>, Seq<Obj>)> {
    Seq::new(v.len(), |i: int| (v[i].0@, crate::object::objs(v[i].1@)))
}

/// The content stream with the given operations, or why there is none.
pub uninterp spec fn content_stream(ops: Seq<(Seq<char>, Seq<Obj>)>) -> Result<Seq<u8>, Seq<char>>;

/// Encodes a content stream: `lopdf::content::Content::encode`.
#[verifier::external_body]
pub(crate) fn encode_content(ops: &Vec<(String, Vec<Object>)>) -> (r: Result<Vec<u8>, String>)
    ensures
        match r {
            Ok(v) => content_stream(operations(ops@)) == Ok::<Seq<u8>, Seq<char>>(v@),
            Err(t) => content_stream(operations(ops@)) == Err::<Seq<u8>, Seq<char>>(t@),
        },
{
    let operation = |(operator, operands): &(String, Vec<Object>)| {
        lopdf::content::Operation::new(operator, operands.iter().map(to_pdf_object).collect())
    };
    let content = lopdf::content::Content { operations: ops.iter().map(operation).collect::<Vec<_>>() };
    content.encode().map_err(|e| e.to_string())
}

/// The file that a document of the given version is saved to, or why it is not saved.
pub uninterp spec fn saved_document(version: Seq<char>, doc: Doc) -> Result<Seq<u8>, Seq<char>>;

/// Saves a document: `lopdf::Document::with_version` and `save_to`, with the objects,
/// the trailer and the largest object number of `doc`, to which it adds one.
#[verifier::external_body]
pub(crate) fn save_document(version: &str, doc: &Document) -> (r: Result<Vec<u8>, String>)
    requires
        doc.max_id < u32::MAX,
    ensures
        match r {
            Ok(v) => saved_document(version@, doc@) == Ok::<Seq<u8>, Seq<char>>(v@),
            Err(t) => saved_document(version@, doc@) == Err::<Seq<u8>, Seq<char>>(t@),
        },
{
    let mut out = lopdf::Document::with_version(version);
    out.objects = doc.objects.iter().map(|(id, o)| (*id, to_pdf_object(o))).collect();
    out.trailer = to_pdf_dictionary(&doc.trailer);
    out.max_id = doc.max_id;
    let mut bytes = Vec::new();
    out.save_to(&mut bytes).map_err(|e| e.to_string())?;
    Ok(bytes)
}

/// The result of parsing a document.
pub open spec fn loaded(pdf: Seq<u8>) -> Result<Doc, ErrorView> {
    if !readable(pdf) {
        Err(ErrorView::Pdf("document structure out of bounds"@))
    } else {
        match parsed_document(pdf) {
            Ok(d) => Ok(d),
            Err(t) => Err(ErrorView::Pdf(t)),
        }
    }
}

/// The view of the result of parsing a document.
pub open spec fn doc_result(r: Result<Document, Error>) -> Result<Doc, ErrorView> {
    match r {
        Ok(d) => Ok(d@),
        Err(e) => Err(e@),
    }
}

/// Parses a document. A file that would exhaust the parser is an error: one whose objects
/// nest too deeply, whose cross-reference or object streams cannot be undone, or in which
/// the lengths of streams lead back to themselves.
pub fn load_document(pdf: &[u8]) -> (r: Result<Document, Error>)
    ensures
        doc_result(r) == loaded(pdf@),
{
    if !is_readable(pdf) {
        return Err(Error::Pdf("document structure out of bounds".to_owned()));
    }
    match load_mem(pdf) {
        Ok(d) => Ok(d),
        Err(t) => Err(Error::Pdf(t)),
    }
}

// ---------------------------------------------------------------------------
// Looking objects up

/// How many references may follow one another.
pub const DEREF_LIMIT: usize = 128;

/// The error for a reference to an object that the document does not have.
pub open spec fn not_found(id: ObjectId) -> ErrorView {
    ErrorView::Pdf("object ID "@ + dec_text(id.0 as nat) + " "@ + dec_text(id.1 as nat) + " not found"@)
}

/// The error for a chain of references that does not end.
pub open spec fn reference_limit() -> ErrorView {
    ErrorView::Pdf("dereferencing object reached limit, may indicate a reference cycle"@)
}

/// The object at the end of the references from `o` on, of which `n` were
/// followed already.
pub open spec fn followed(objects: Seq<(ObjectId, Obj)>, o: Obj, n: nat) -> Result<Obj, ErrorView>
    decreases DEREF_LIMIT + 1 - n,
{
    match o {
        Obj::Reference(id) => match lookup(objects, id) {
            None => Err(not_found(id)),
            Some(x) => if n >= DEREF_LIMIT {
                Err(reference_limit())
            } else {
                followed(objects, x, n + 1)
            },
        },
        _ => Ok(o),
    }
}

/// The object under a number, references followed.
pub open spec fn object_at(doc: Doc, id: ObjectId) -> Result<Obj, ErrorView> {
    match lookup(doc.objects, id) {
        None => Err(not_found(id)),
        Some(o) => followed(doc.objects, o, 0),
    }
}

/// The dictionary under a number, references followed.
pub open spec fn dict_at(doc: Doc, id: ObjectId) -> Result<Dict, ErrorView> {
    match object_at(doc, id) {
        Err(e) => Err(e),
        Ok(Obj::Dictionary(d)) => Ok(d),
        Ok(o) => Err(wrong_type("Dictionary"@, o)),
    }
}

/// The array under a number, references followed.
pub open spec fn array_at(doc: Doc, id: ObjectId) -> Result<Seq<Obj>, ErrorView> {
    match object_at(doc, id) {
        Err(e) => Err(e),
        Ok(Obj::Array(a)) => Ok(a),
        Ok(o) => Err(wrong_type("Array"@, o)),
    }
}

fn not_found_error(id: ObjectId) -> (r: Error)
    ensures
        r@ == not_found(id),
{
    let mut t: String = "object ID ".to_owned();
    append_dec(&mut t, id.0 as u64);
    t.append(" ");
    append_dec(&mut t, id.1 as u64);
    t.append(" not found");
    Error::Pdf(t)
}

impl Document {
    /// The object directly under a number.
    fn find(&self, id: ObjectId) -> (r: Option<&Object>)
        ensures
            match lookup(self@.objects, id) {
                Some(o) => r is Some && r->0@ == o,
                None => r is None,
            },
    {
        let mut i: usize = 0;
        while i < self.objects.len()
            invariant
                i <= self.objects.len(),
                key_index(self@.objects, id, 0) == key_index(self@.objects, id, i as int),
            decreases self.objects.len() - i,
        {
            assert(self@.objects[i as int] == (self.objects@[i as int].0, self.objects@[i as int].1@));
            if self.objects[i].0.0 == id.0 && self.objects[i].0.1 == id.1 {
                assert(self.objects@[i as int].0 == id);
                return Some(&self.objects[i].1);
            }
            i += 1;
        }
        None
    }

    /// The object under a number, references followed.
    pub fn get_object(&self, id: ObjectId) -> (r: Result<&Object, Error>)
        ensures
            match object_at(self@, id) {
                Ok(o) => r is Ok && r->Ok_0@ == o,
                Err(e) => r is Err && r->Err_0@ == e,
            },
    {
        let mut object: &Object = match self.find(id) {
            None => {
                return Err(not_found_error(id));
            },
            Some(o) => o,
        };
        let mut n: usize = 0;
        loop
            invariant
                n <= DEREF_LIMIT,
                object_at(self@, id) == followed(self@.objects, object@, n as nat),
            decreases DEREF_LIMIT + 1 - n,
        {
            match object {
                Object::Reference(next) => {
                    match self.find(*next) {
                        None => {
                            return Err(not_found_error(*next));
                        },
                        Some(o) => {
                            if n >= DEREF_LIMIT {
                                return Err(
                                    Error::Pdf(
                                        "dereferencing object reached limit, may indicate a reference cycle".to_owned(),
                                    ),
                                );
                            }
                            object = o;
                            n += 1;
                        },
                    }
                },
                _ => {
                    return Ok(object);
                },
            }
        }
    }

    /// The dictionary under a number, references followed.
    pub fn get_dict(&self, id: ObjectId) -> (r: Result<&Dictionary, Error>)
        ensures
            match dict_at(self@, id) {
                Ok(d) => r is Ok && r->Ok_0@ == d,
                Err(e) => r is Err && r->Err_0@ == e,
            },
    {
        match self.get_object(id) {
            Err(e) => Err(e),
            Ok(o) => o.as_dict(),
        }
    }

    /// The array under a number, references followed.
    pub fn get_array(&self, id: ObjectId) -> (r: Result<&Vec<Object>, Error>)
        ensures
            match array_at(self@, id) {
                Ok(a) => r is Ok && crate::object::objs(r->Ok_0@) == a,
                Err(e) => r is Err && r->Err_0@ == e,
            },
    {
        match self.get_object(id) {
            Err(e) => Err(e),
            Ok(o) => o.as_array(),
        }
    }

    /// The catalog's number.
    pub fn root_id(&self) -> (r: Result<ObjectId, Error>)
        ensures
            crate::error::plain_result(r) == root_of(self@),
    {
        match self.trailer.get("Root") {
            None => Err(missing_key_error("Root")),
            Some(o) => o.as_reference(),
        }
    }
}

/// The catalog's number.
pub open spec fn root_of(doc: Doc) -> Result<ObjectId, ErrorView> {
    match lookup(doc.trailer, utf8("Root"@)) {
        None => Err(missing_key("Root"@)),
        Some(Obj::Reference(id)) => Ok(id),
        Some(o) => Err(wrong_type("Reference"@, o)),
    }
}

} // verus!
