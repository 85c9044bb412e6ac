//! The incremental updates that carry a signature: the signature dictionary with
//! its placeholders, the widget that shows it, and its place in the document.
use vstd::prelude::*;

use crate::appearance::{
    add_appearance, add_fresh, alloc_id, appearance_added, array4, fresh, name_object, real_object, zero, zero_real,
};
use crate::document::{array_at, dict_at, load_document, loaded, root_of, Doc, Document};
use crate::error::{bytes_result, malformed, plain_result, Error, ErrorView};
use crate::incremental::{
    insert_item, last_startxref, startxref, startxref_in_bounds, startxref_sound, updated, uses_xref_stream,
    xref_stream_used, Incremental, Item,
};
use crate::object::{copy_array, key_index, lookup, objs, put, Dict, Dictionary, Obj, Object, ObjectId, StringFormat};
use crate::options::{Appearance, SignOptions};
use crate::util::{bytes_of, dec, lit, push_dec, push_str, utf8};

verus! {

// ---------------------------------------------------------------------------
// Dictionaries

/// A text as a literal string object.
pub open spec fn literal(s: Seq<char>) -> Obj {
    Obj::String(utf8(s), StringFormat::Literal)
}

fn string_literal(s: &str) -> (r: Object)
    ensures
        r@ == literal(s@),
{
    Object::String(bytes_of(s), StringFormat::Literal)
}

/// The `/ByteRange` placeholder: ten-digit sentinels reserve enough width for any
/// realistic file offset.
pub open spec fn range_placeholder() -> Obj {
    Obj::Array(
        seq![
            Obj::Integer(0),
            Obj::Integer(9_999_999_999),
            Obj::Integer(9_999_999_999),
            Obj::Integer(9_999_999_999),
        ],
    )
}

fn byte_range_placeholder() -> (r: Object)
    ensures
        r@ == range_placeholder(),
{
    array4(
        Object::Integer(0),
        Object::Integer(9_999_999_999),
        Object::Integer(9_999_999_999),
        Object::Integer(9_999_999_999),
    )
}

/// The `/Contents` placeholder: a hexadecimal string of zeros.
pub open spec fn contents_placeholder(capacity: nat) -> Obj {
    Obj::String(Seq::new(capacity, |i: int| 0u8), StringFormat::Hexadecimal)
}

fn zeros(capacity: usize) -> (r: Object)
    ensures
        r@ == contents_placeholder(capacity as nat),
{
    let v: Vec<u8> = vec![0u8; capacity];
    assert(v@ =~= Seq::new(capacity as nat, |i: int| 0u8));
    Object::String(v, StringFormat::Hexadecimal)
}

/// A dictionary with a text under a key, where there is a text.
pub open spec fn put_text(d: Dict, key: Seq<u8>, text: Option<String>) -> Dict {
    match text {
        Some(t) => put(d, key, literal(t@)),
        None => d,
    }
}

fn set_text(d: &mut Dictionary, key: &str, text: &Option<String>)
    ensures
        final(d)@ == put_text(old(d)@, lit(key), *text),
{
    if let Some(t) = text {
        d.set(key, string_literal(t.as_str()));
    }
}

/// The entries that every signature dictionary begins with.
pub open spec fn sig_head(kind: Seq<u8>, subfilter: Seq<u8>, capacity: nat) -> Dict {
    let d = Seq::<(Seq<u8>, Obj)>::empty();
    let d = put(d, lit("Type"), Obj::Name(kind));
    let d = put(d, lit("Filter"), Obj::Name(lit("Adobe.PPKLite")));
    let d = put(d, lit("SubFilter"), Obj::Name(subfilter));
    let d = put(d, lit("ByteRange"), range_placeholder());
    put(d, lit("Contents"), contents_placeholder(capacity))
}

fn new_sig_dict(kind: &str, subfilter: &str, capacity: usize) -> (r: Dictionary)
    ensures
        r@ == sig_head(lit(kind), lit(subfilter), capacity as nat),
{
    let mut sig: Dictionary = Dictionary::new();
    sig.set("Type", name_object(kind));
    sig.set("Filter", name_object("Adobe.PPKLite"));
    sig.set("SubFilter", name_object(subfilter));
    sig.set("ByteRange", byte_range_placeholder());
    sig.set("Contents", zeros(capacity));
    sig
}

/// The `/DocTimeStamp` dictionary with ByteRange/Contents placeholders.
pub open spec fn doctimestamp_dict(capacity: nat) -> Obj {
    Obj::Dictionary(sig_head(lit("DocTimeStamp"), lit("ETSI.RFC3161"), capacity))
}

/// The `/DocTimeStamp` dictionary with ByteRange/Contents placeholders.
pub fn build_doctimestamp_dict(capacity: usize) -> (r: Object)
    ensures
        r@ == doctimestamp_dict(capacity as nat),
{
    Object::Dictionary(new_sig_dict("DocTimeStamp", "ETSI.RFC3161", capacity))
}

/// The signature `/Sig` dictionary, with ByteRange/Contents placeholders.
pub open spec fn sig_dict(opts: SignOptions) -> Obj {
    let d = sig_head(lit("Sig"), lit("ETSI.CAdES.detached"), opts.signature_capacity as nat);
    let d = put_text(d, lit("Reason"), opts.reason);
    let d = put_text(d, lit("Name"), opts.name);
    let d = put_text(d, lit("Location"), opts.location);
    let d = put_text(d, lit("ContactInfo"), opts.contact_info);
    let d = put_text(d, lit("M"), opts.signing_time);
    Obj::Dictionary(d)
}

/// The signature `/Sig` dictionary, with ByteRange/Contents placeholders.
pub fn build_sig_dict(opts: &SignOptions) -> (r: Object)
    ensures
        r@ == sig_dict(*opts),
{
    let mut sig: Dictionary = new_sig_dict("Sig", "ETSI.CAdES.detached", opts.signature_capacity);
    set_text(&mut sig, "Reason", &opts.reason);
    set_text(&mut sig, "Name", &opts.name);
    set_text(&mut sig, "Location", &opts.location);
    set_text(&mut sig, "ContactInfo", &opts.contact_info);
    set_text(&mut sig, "M", &opts.signing_time);
    Object::Dictionary(sig)
}

/// The rectangle of a visible signature.
pub open spec fn rect_of(app: Appearance) -> Obj {
    Obj::Array(
        seq![
            Obj::Real(app.left.bits, app.left.text@),
            Obj::Real(app.bottom.bits, app.bottom.text@),
            Obj::Real(app.right.bits, app.right.text@),
            Obj::Real(app.top.bits, app.top.text@),
        ],
    )
}

/// The `/FT /Sig` widget annotation referencing the signature dictionary: with
/// its appearance where it is visible, otherwise with a rectangle of no area. The
/// field name is keyed to the signature's number, so that it is unique across
/// repeated signatures.
pub open spec fn widget(app: Option<Appearance>, sig_id: ObjectId, form: Option<ObjectId>) -> Obj {
    let d = Seq::<(Seq<u8>, Obj)>::empty();
    let d = put(d, lit("Type"), Obj::Name(lit("Annot")));
    let d = put(d, lit("Subtype"), Obj::Name(lit("Widget")));
    let d = put(d, lit("FT"), Obj::Name(lit("Sig")));
    let d = put(d, lit("T"), Obj::String(lit("Signature") + dec(sig_id.0 as nat), StringFormat::Literal));
    let d = put(d, lit("F"), Obj::Integer(132));
    let d = put(d, lit("V"), Obj::Reference(sig_id));
    let d = match (app, form) {
        (Some(a), Some(id)) => put(
            put(d, lit("Rect"), rect_of(a)),
            lit("AP"),
            Obj::Dictionary(put(Seq::<(Seq<u8>, Obj)>::empty(), lit("N"), Obj::Reference(id))),
        ),
        _ => put(d, lit("Rect"), Obj::Array(seq![zero_real(), zero_real(), zero_real(), zero_real()])),
    };
    Obj::Dictionary(d)
}

/// The `/FT /Sig` widget annotation referencing the signature dictionary.
pub fn build_widget(app: &Option<Appearance>, sig_id: ObjectId, ap_ref: Option<ObjectId>) -> (r: Object)
    ensures
        r@ == widget(*app, sig_id, ap_ref),
{
    let mut field: Dictionary = Dictionary::new();
    field.set("Type", name_object("Annot"));
    field.set("Subtype", name_object("Widget"));
    field.set("FT", name_object("Sig"));
    let mut t: Vec<u8> = Vec::new();
    push_str(&mut t, "Signature");
    push_dec(&mut t, sig_id.0 as u64);
    assert(t@ =~= lit("Signature") + dec(sig_id.0 as nat));
    field.set("T", Object::String(t, StringFormat::Literal));
    field.set("F", Object::Integer(132));
    field.set("V", Object::Reference(sig_id));
    match (app, ap_ref) {
        (Some(a), Some(ap_id)) => {
            field.set(
                "Rect",
                array4(real_object(&a.left), real_object(&a.bottom), real_object(&a.right), real_object(&a.top)),
            );
            let mut ap: Dictionary = Dictionary::new();
            ap.set("N", Object::Reference(ap_id));
            field.set("AP", Object::Dictionary(ap));
        },
        _ => {
            field.set("Rect", array4(zero(), zero(), zero(), zero()));
        },
    }
    Object::Dictionary(field)
}

// ---------------------------------------------------------------------------
// Pages and forms

/// The object of page `page_number` (1-based), falling back to the first page.
pub open spec fn page_of(doc: Doc, page_number: usize) -> Result<ObjectId, ErrorView> {
    match lookup(doc.pages, (page_number as int % 0x1_0000_0000) as u32) {
        Some(id) => Ok(id),
        None => if doc.pages.len() > 0 {
            Ok(doc.pages[0].1)
        } else {
            Err(ErrorView::Malformed("PDF has no pages"@))
        },
    }
}

/// First object id of page `page_number` (1-based), falling back to page 1.
pub fn nth_page_id(doc: &Document, page_number: usize) -> (r: Result<ObjectId, Error>)
    ensures
        plain_result(r) == page_of(doc@, page_number),
{
    let wanted: u32 = (page_number as u64 % 0x1_0000_0000) as u32;
    let mut i: usize = 0;
    while i < doc.pages.len()
        invariant
            i <= doc.pages.len(),
            wanted == (page_number as int % 0x1_0000_0000) as u32,
            key_index(doc@.pages, wanted, 0) == key_index(doc@.pages, wanted, i as int),
        decreases doc.pages.len() - i,
    {
        if doc.pages[i].0 == wanted {
            return Ok(doc.pages[i].1);
        }
        i += 1;
    }
    if doc.pages.len() > 0 {
        Ok(doc.pages[0].1)
    } else {
        Err(malformed("PDF has no pages"))
    }
}

/// An array with one more reference.
pub open spec fn with_reference(a: Seq<Obj>, id: ObjectId) -> Obj {
    Obj::Array(a.push(Obj::Reference(id)))
}

fn append_reference(a: &Vec<Object>, id: ObjectId) -> (r: Object)
    ensures
        r@ == with_reference(objs(a@), id),
{
    let mut v: Vec<Object> = copy_array(a);
    let ghost before = v@;
    let o: Object = Object::Reference(id);
    assert(o@ == Obj::Reference(id));
    v.push(o);
    assert(v@.drop_last() =~= before);
    assert(objs(v@) == objs(before).push(Obj::Reference(id)));
    Object::Array(v)
}

fn single_reference(id: ObjectId) -> (r: Object)
    ensures
        r@ == with_reference(Seq::empty(), id),
{
    let v: Vec<Object> = Vec::new();
    assert(objs(v@) =~= Seq::empty());
    append_reference(&v, id)
}

/// The items with an object under its number among them.
pub open spec fn add_object(s: Seq<Item>, id: ObjectId, o: Obj) -> Seq<Item> {
    insert_item(s, (Item { id: id.0, gen: id.1, obj: o }))
}

/// The items with the widget in the page's `/Annots`: the array where it is an
/// object of its own, otherwise the page.
pub open spec fn widget_on_page(doc: Doc, s: Seq<Item>, page_id: ObjectId, widget_id: ObjectId) -> Result<
    Seq<Item>,
    ErrorView,
> {
    match dict_at(doc, page_id) {
        Err(e) => Err(e),
        Ok(page) => match lookup(page, lit("Annots")) {
            Some(Obj::Reference(r)) => match array_at(doc, r) {
                Err(e) => Err(e),
                Ok(a) => Ok(add_object(s, r, with_reference(a, widget_id))),
            },
            Some(Obj::Array(a)) => Ok(
                add_object(s, page_id, Obj::Dictionary(put(page, lit("Annots"), with_reference(a, widget_id)))),
            ),
            _ => Ok(
                add_object(
                    s,
                    page_id,
                    Obj::Dictionary(put(page, lit("Annots"), with_reference(Seq::empty(), widget_id))),
                ),
            ),
        },
    }
}

/// Add the widget to the target page's `/Annots`, re-emitting only what changed.
pub fn apply_widget_to_page(doc: &Document, inc: &mut Incremental, page_id: ObjectId, widget_id: ObjectId) -> (r: Result<
    (),
    Error,
>)
    requires
        old(inc).wf(),
    ensures
        final(inc).wf(),
        final(inc).base() == old(inc).base(),
        match widget_on_page(doc@, old(inc)@, page_id, widget_id) {
            Ok(s) => r is Ok && final(inc)@ == s,
            Err(e) => r is Err && r->Err_0@ == e,
        },
{
    let page: &Dictionary = match doc.get_dict(page_id) {
        Err(e) => {
            return Err(e);
        },
        Ok(d) => d,
    };
    match page.get("Annots") {
        Some(Object::Reference(r)) => match doc.get_array(*r) {
            Err(e) => {
                return Err(e);
            },
            Ok(a) => {
                inc.add(*r, append_reference(a, widget_id));
            },
        },
        Some(Object::Array(a)) => {
            let mut page: Dictionary = page.copy();
            page.set("Annots", append_reference(a, widget_id));
            inc.add(page_id, Object::Dictionary(page));
        },
        _ => {
            let mut page: Dictionary = page.copy();
            page.set("Annots", single_reference(widget_id));
            inc.add(page_id, Object::Dictionary(page));
        },
    }
    Ok(())
}

/// The items and the form with one more field: in the array of fields where it
/// is an object of its own, otherwise in the form.
pub open spec fn field_in_form(doc: Doc, s: Seq<Item>, form: Dict, widget_id: ObjectId) -> Result<
    (Seq<Item>, Dict),
    ErrorView,
> {
    match lookup(form, lit("Fields")) {
        Some(Obj::Reference(r)) => match array_at(doc, r) {
            Err(e) => Err(e),
            Ok(a) => Ok((add_object(s, r, with_reference(a, widget_id)), form)),
        },
        Some(Obj::Array(a)) => Ok((s, put(form, lit("Fields"), with_reference(a, widget_id)))),
        _ => Ok((s, put(form, lit("Fields"), with_reference(Seq::empty(), widget_id)))),
    }
}

/// Append the widget to a form's `/Fields`, handling both an inline array and a
/// referenced array object.
pub fn add_field_to_form(doc: &Document, inc: &mut Incremental, form: &mut Dictionary, widget_id: ObjectId) -> (r: Result<
    (),
    Error,
>)
    requires
        old(inc).wf(),
    ensures
        final(inc).wf(),
        final(inc).base() == old(inc).base(),
        match field_in_form(doc@, old(inc)@, old(form)@, widget_id) {
            Ok((s, f)) => r is Ok && final(inc)@ == s && final(form)@ == f,
            Err(e) => r is Err && r->Err_0@ == e,
        },
{
    let fields: Object = match form.get("Fields") {
        Some(Object::Reference(r)) => match doc.get_array(*r) {
            Err(e) => {
                return Err(e);
            },
            Ok(a) => {
                inc.add(*r, append_reference(a, widget_id));
                return Ok(());
            },
        },
        Some(Object::Array(a)) => append_reference(a, widget_id),
        _ => single_reference(widget_id),
    };
    form.set("Fields", fields);
    Ok(())
}

/// The items with the field registered in the catalog's form, which is created
/// where there is none.
pub open spec fn field_registered(doc: Doc, s: Seq<Item>, root_id: ObjectId, widget_id: ObjectId) -> Result<
    Seq<Item>,
    ErrorView,
> {
    match dict_at(doc, root_id) {
        Err(e) => Err(e),
        Ok(catalog) => match lookup(catalog, lit("AcroForm")) {
            Some(Obj::Reference(af)) => match dict_at(doc, af) {
                Err(e) => Err(e),
                Ok(form) => match field_in_form(doc, s, form, widget_id) {
                    Err(e) => Err(e),
                    Ok((s1, f)) => Ok(
                        add_object(s1, af, Obj::Dictionary(put(f, lit("SigFlags"), Obj::Integer(3)))),
                    ),
                },
            },
            Some(Obj::Dictionary(form)) => match field_in_form(doc, s, form, widget_id) {
                Err(e) => Err(e),
                Ok((s1, f)) => Ok(
                    add_object(
                        s1,
                        root_id,
                        Obj::Dictionary(
                            put(
                                catalog,
                                lit("AcroForm"),
                                Obj::Dictionary(put(f, lit("SigFlags"), Obj::Integer(3))),
                            ),
                        ),
                    ),
                ),
            },
            _ => Ok(
                add_object(
                    s,
                    root_id,
                    Obj::Dictionary(
                        put(
                            catalog,
                            lit("AcroForm"),
                            Obj::Dictionary(
                                put(
                                    put(
                                        Seq::<(Seq<u8>, Obj)>::empty(),
                                        lit("Fields"),
                                        with_reference(Seq::empty(), widget_id),
                                    ),
                                    lit("SigFlags"),
                                    Obj::Integer(3),
                                ),
                            ),
                        ),
                    ),
                ),
            ),
        },
    }
}

/// Register the field in `/AcroForm` (creating it if absent), re-emitting only
/// the object that actually changes.
pub fn apply_field_to_acroform(
    doc: &Document,
    inc: &mut Incremental,
    root_id: ObjectId,
    widget_id: ObjectId,
) -> (r: Result<(), Error>)
    requires
        old(inc).wf(),
    ensures
        final(inc).wf(),
        final(inc).base() == old(inc).base(),
        match field_registered(doc@, old(inc)@, root_id, widget_id) {
            Ok(s) => r is Ok && final(inc)@ == s,
            Err(e) => r is Err && r->Err_0@ == e,
        },
{
    let catalog: &Dictionary = match doc.get_dict(root_id) {
        Err(e) => {
            return Err(e);
        },
        Ok(d) => d,
    };
    match catalog.get("AcroForm") {
        Some(Object::Reference(af)) => {
            let mut form: Dictionary = match doc.get_dict(*af) {
                Err(e) => {
                    return Err(e);
                },
                Ok(d) => d.copy(),
            };
            match add_field_to_form(doc, inc, &mut form, widget_id) {
                Err(e) => {
                    return Err(e);
                },
                Ok(()) => {},
            }
            form.set("SigFlags", Object::Integer(3));
            inc.add(*af, Object::Dictionary(form));
        },
        Some(Object::Dictionary(d)) => {
            let mut catalog: Dictionary = catalog.copy();
            let mut form: Dictionary = d.copy();
            match add_field_to_form(doc, inc, &mut form, widget_id) {
                Err(e) => {
                    return Err(e);
                },
                Ok(()) => {},
            }
            form.set("SigFlags", Object::Integer(3));
            catalog.set("AcroForm", Object::Dictionary(form));
            inc.add(root_id, Object::Dictionary(catalog));
        },
        _ => {
            let mut catalog: Dictionary = catalog.copy();
            let mut form: Dictionary = Dictionary::new();
            form.set("Fields", single_reference(widget_id));
            form.set("SigFlags", Object::Integer(3));
            catalog.set("AcroForm", Object::Dictionary(form));
            inc.add(root_id, Object::Dictionary(catalog));
        },
    }
    Ok(())
}

// ---------------------------------------------------------------------------
// Update sections

/// The error for a document whose object numbers are used up.
pub open spec fn numbers_exhausted() -> ErrorView {
    ErrorView::Malformed("no free object numbers"@)
}

/// The original with the items appended, chained to its last cross-reference
/// section. The new `/Size`, and the number of a cross-reference stream, must be object
/// numbers.
pub open spec fn appended(pdf: Seq<u8>, doc: Doc, s: Seq<Item>, size: int, root: ObjectId) -> Result<
    Seq<u8>,
    ErrorView,
> {
    if !startxref_sound(pdf) {
        Err(ErrorView::Malformed("startxref points outside the file"@))
    } else {
        match startxref(pdf) {
            None => Err(ErrorView::Malformed("original PDF has no startxref"@)),
            Some(prev) => if size > u32::MAX || (size == u32::MAX && xref_stream_used(pdf)) {
                Err(numbers_exhausted())
            } else {
                Ok(updated(pdf, s, size as u32, root, prev, lookup(doc.trailer, lit("ID"))))
            },
        }
    }
}

/// Renders an update of `inc`'s original.
pub fn append_update(pdf: &[u8], doc: &Document, inc: &Incremental, size: u64, root: ObjectId) -> (r: Result<
    Vec<u8>,
    Error,
>)
    requires
        inc.wf(),
        inc.base() == pdf@,
    ensures
        bytes_result(r) == appended(pdf@, doc@, inc@, size as int, root),
{
    if !startxref_in_bounds(pdf) {
        return Err(malformed("startxref points outside the file"));
    }
    let total: usize = pdf.len();
    match last_startxref(pdf) {
        None => Err(malformed("original PDF has no startxref")),
        Some(prev) => {
            if size > u32::MAX as u64 || (size == u32::MAX as u64 && uses_xref_stream(pdf)) {
                return Err(malformed("no free object numbers"));
            }
            let id: Option<Object> = match doc.trailer.get("ID") {
                Some(o) => Some(o.copy()),
                None => None,
            };
            Ok(inc.render(size as u32, root, prev, id))
        },
    }
}

/// The items of an update with a signature, and the new `/Size`.
#[verifier::opaque]
pub open spec fn signature_items(doc: Doc, opts: SignOptions) -> Result<(Seq<Item>, int, ObjectId), ErrorView> {
    match root_of(doc) {
        Err(e) => Err(e),
        Ok(root) => match page_of(
            doc,
            match opts.appearance {
                Some(a) => a.page,
                None => 1,
            },
        ) {
            Err(e) => Err(e),
            Ok(page) => {
                let sig = doc.max_id + 1;
                let s0 = add_fresh(Seq::empty(), sig, sig_dict(opts));
                match form_items(s0, sig + 1, opts.appearance) {
                    Err(e) => Err(e),
                    Ok((s1, n, form)) => match placed(
                        doc,
                        add_fresh(s1, n, widget(opts.appearance, fresh(sig), form)),
                        page,
                        root,
                        fresh(n),
                    ) {
                        Err(e) => Err(e),
                        Ok(s2) => Ok((s2, n + 1, root)),
                    },
                }
            },
        },
    }
}

/// The items with the objects of the appearance, where there is one.
pub open spec fn form_items(s: Seq<Item>, n: int, app: Option<Appearance>) -> Result<
    (Seq<Item>, int, Option<ObjectId>),
    ErrorView,
> {
    match app {
        None => Ok((s, n, None)),
        Some(a) => match appearance_added(s, n, a) {
            Err(e) => Err(e),
            Ok((s1, n1, form)) => Ok((s1, n1, Some(fresh(form)))),
        },
    }
}

/// The items with the widget on its page and in the form.
pub open spec fn placed(doc: Doc, s: Seq<Item>, page: ObjectId, root: ObjectId, widget_id: ObjectId) -> Result<
    Seq<Item>,
    ErrorView,
> {
    match widget_on_page(doc, s, page, widget_id) {
        Err(e) => Err(e),
        Ok(s1) => field_registered(doc, s1, root, widget_id),
    }
}

/// The original with a signature section, placeholders and all, appended.
pub open spec fn signature_update(pdf: Seq<u8>, doc: Doc, opts: SignOptions) -> Result<Seq<u8>, ErrorView> {
    match signature_items(doc, opts) {
        Err(e) => Err(e),
        Ok((s, size, root)) => appended(pdf, doc, s, size, root),
    }
}

/// Assemble the incremental-update section (with signature placeholders) for a
/// parsed document and return `original_bytes + update`.
pub fn update_document(pdf: &[u8], doc: &Document, opts: &SignOptions) -> (r: Result<Vec<u8>, Error>)
    ensures
        bytes_result(r) == signature_update(pdf@, doc@, *opts),
{
    proof {
        reveal(signature_items);
    }
    let root_id: ObjectId = match doc.root_id() {
        Err(e) => {
            return Err(e);
        },
        Ok(id) => id,
    };
    let page_number: usize = match &opts.appearance {
        Some(a) => a.page,
        None => 1,
    };
    let page_id: ObjectId = match nth_page_id(doc, page_number) {
        Err(e) => {
            return Err(e);
        },
        Ok(id) => id,
    };
    let mut inc: Incremental = Incremental::new(pdf);
    let mut next_id: u64 = doc.max_id as u64 + 1;

    let sig_id: ObjectId = alloc_id(&mut next_id);
    inc.add(sig_id, build_sig_dict(opts));

    let mut ap_ref: Option<ObjectId> = None;
    if let Some(app) = &opts.appearance {
        match add_appearance(&mut inc, &mut next_id, app) {
            Err(e) => {
                return Err(e);
            },
            Ok(id) => {
                ap_ref = Some(id);
            },
        }
    }
    let widget_id: ObjectId = alloc_id(&mut next_id);
    inc.add(widget_id, build_widget(&opts.appearance, sig_id, ap_ref));

    match apply_widget_to_page(doc, &mut inc, page_id, widget_id) {
        Err(e) => {
            return Err(e);
        },
        Ok(()) => {},
    }
    match apply_field_to_acroform(doc, &mut inc, root_id, widget_id) {
        Err(e) => {
            return Err(e);
        },
        Ok(()) => {},
    }
    append_update(pdf, doc, &inc, next_id, root_id)
}

/// Assemble the incremental-update section (with signature placeholders) and
/// return `original_bytes + update`.
pub fn build_incremental_update(pdf: &[u8], opts: &SignOptions) -> (r: Result<Vec<u8>, Error>)
    ensures
        bytes_result(r) == (match loaded(pdf@) {
            Err(e) => Err(e),
            Ok(doc) => signature_update(pdf@, doc, *opts),
        }),
{
    match load_document(pdf) {
        Err(e) => Err(e),
        Ok(doc) => update_document(pdf, &doc, opts),
    }
}

/// The items of an update with a document timestamp, and the new `/Size`.
#[verifier::opaque]
pub open spec fn timestamp_items(doc: Doc, capacity: nat) -> Result<(Seq<Item>, int, ObjectId), ErrorView> {
    match root_of(doc) {
        Err(e) => Err(e),
        Ok(root) => match page_of(doc, 1) {
            Err(e) => Err(e),
            Ok(page) => {
                let ts = doc.max_id + 1;
                let s = add_fresh(
                    add_fresh(Seq::empty(), ts, doctimestamp_dict(capacity)),
                    ts + 1,
                    widget(None, fresh(ts), None),
                );
                match placed(doc, s, page, root, fresh(ts + 1)) {
                    Err(e) => Err(e),
                    Ok(s2) => Ok((s2, ts + 2, root)),
                }
            },
        },
    }
}

/// The original with a document timestamp section, placeholders and all, appended.
pub open spec fn timestamp_update(pdf: Seq<u8>, doc: Doc, capacity: nat) -> Result<Seq<u8>, ErrorView> {
    match timestamp_items(doc, capacity) {
        Err(e) => Err(e),
        Ok((s, size, root)) => appended(pdf, doc, s, size, root),
    }
}

/// Incremental update of a parsed document carrying an empty `/DocTimeStamp`
/// signature field.
pub fn timestamp_document(pdf: &[u8], doc: &Document, capacity: usize) -> (r: Result<Vec<u8>, Error>)
    ensures
        bytes_result(r) == timestamp_update(pdf@, doc@, capacity as nat),
{
    proof {
        reveal(timestamp_items);
    }
    let root_id: ObjectId = match doc.root_id() {
        Err(e) => {
            return Err(e);
        },
        Ok(id) => id,
    };
    let page_id: ObjectId = match nth_page_id(doc, 1) {
        Err(e) => {
            return Err(e);
        },
        Ok(id) => id,
    };
    let mut inc: Incremental = Incremental::new(pdf);
    let mut next_id: u64 = doc.max_id as u64 + 1;
    let ts_id: ObjectId = alloc_id(&mut next_id);
    inc.add(ts_id, build_doctimestamp_dict(capacity));
    let widget_id: ObjectId = alloc_id(&mut next_id);
    inc.add(widget_id, build_widget(&None, ts_id, None));

    match apply_widget_to_page(doc, &mut inc, page_id, widget_id) {
        Err(e) => {
            return Err(e);
        },
        Ok(()) => {},
    }
    match apply_field_to_acroform(doc, &mut inc, root_id, widget_id) {
        Err(e) => {
            return Err(e);
        },
        Ok(()) => {},
    }
    append_update(pdf, doc, &inc, next_id, root_id)
}

/// Incremental update carrying an empty `/DocTimeStamp` signature field.
pub fn build_doctimestamp_update(pdf: &[u8], capacity: usize) -> (r: Result<Vec<u8>, Error>)
    ensures
        bytes_result(r) == (match loaded(pdf@) {
            Err(e) => Err(e),
            Ok(doc) => timestamp_update(pdf@, doc, capacity as nat),
        }),
{
    match load_document(pdf) {
        Err(e) => Err(e),
        Ok(doc) => timestamp_document(pdf, &doc, capacity),
    }
}

} // verus!
