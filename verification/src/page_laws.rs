//! Where a signature goes in a document: on which page its widget stands, and how the form
//! of the document names it.
use vstd::prelude::*;

use crate::appearance::{
    add_fresh, descriptor_obj, font_added, font_header, font_obj, fontfile_obj, form_obj, fresh, helvetica_obj, image_added,
    image_obj, image_of,
};
use crate::document::{array_at, dict_at, root_of, Doc};
use crate::error::ErrorView;
use crate::incremental::{insert_item, law_insert_item, ordered, Item};
use crate::object::{law_put_lookup, lemma_key_index, lookup, put, Dict, Obj, ObjectId, StringFormat};
use crate::options::{Appearance, SignOptions};
use crate::update::{
    field_in_form, field_registered, form_items, page_of, sig_dict, signature_items, timestamp_items, widget,
    widget_on_page, with_reference,
};
use crate::update_laws::{
    lemma_add_keeps, lemma_form_keeps, lemma_form_numbers, lemma_numbered, lemma_widget_rangeless, numbered,
    sig_item, stamp_item,
};
use crate::util::{lemma_lit, lit};

verus! {

/// The `k`-th page in the list of a document is the first one with a number.
pub open spec fn first_with_number(doc: Doc, number: int, k: int) -> bool {
    0 <= k < doc.pages.len() && doc.pages[k].0 == number && forall|j: int| 0 <= j < k ==> (#[trigger] doc.pages[j]).0
        != number
}

/// Pages are taken by their number, counted from one: where a document has a page with the
/// number, it is that page; the first page stands in only where it has none; and only a
/// document without pages gives none.
pub proof fn law_page_has_the_number(doc: Doc, number: usize, k: int)
    ensures
        number <= u32::MAX && first_with_number(doc, number as int, k) ==> page_of(doc, number) == Ok::<
            ObjectId,
            ErrorView,
        >(doc.pages[k].1),
        number <= u32::MAX && doc.pages.len() > 0 && (forall|j: int|
            0 <= j < doc.pages.len() ==> (#[trigger] doc.pages[j]).0 != number) ==> page_of(doc, number) == Ok::<
            ObjectId,
            ErrorView,
        >(doc.pages[0].1),
        page_of(doc, number) is Err <==> doc.pages.len() == 0,
{
    lemma_key_index(doc.pages, (number as int % 0x1_0000_0000) as u32, 0);
    if number <= u32::MAX {
        assert((number as int % 0x1_0000_0000) as u32 == number);
        if first_with_number(doc, number as int, k) {
            crate::object::lemma_key_index_is(doc.pages, number as u32, 0, k);
        }
    }
}

/// The annotations of a page before the update.
pub open spec fn annotations(doc: Doc, page: Dict) -> Seq<Obj> {
    match lookup(page, lit("Annots")) {
        Some(Obj::Array(a)) => a,
        Some(Obj::Reference(r)) => match array_at(doc, r) {
            Ok(a) => a,
            Err(_) => Seq::empty(),
        },
        _ => Seq::empty(),
    }
}

/// A form keeps its fields in an object with the number.
pub open spec fn fields_under(form: Dict, id: u32) -> bool {
    lookup(form, lit("Fields")) matches Some(Obj::Reference(r)) && r.0 == id
}

/// The catalog, or an object of the form of the document, has the number.
pub open spec fn form_object(doc: Doc, root: ObjectId, id: u32) -> bool {
    id == root.0 || (dict_at(doc, root) matches Ok(catalog) && match lookup(catalog, lit("AcroForm")) {
        Some(Obj::Reference(af)) => id == af.0 || (dict_at(doc, af) matches Ok(form) && fields_under(form, id)),
        Some(Obj::Dictionary(form)) => fields_under(form, id),
        _ => false,
    })
}

/// The items hold an object under its number and generation.
pub open spec fn holds_object(s: Seq<Item>, id: ObjectId, o: Obj) -> bool {
    s.contains(Item { id: id.0, gen: id.1, obj: o })
}

/// A page with a widget: its annotations are the former ones and a reference to the
/// widget, and its other entries are as they were.
pub open spec fn page_shows(page: Dict, with: Dict, former: Seq<Obj>, w: ObjectId) -> bool {
    &&& lookup(with, lit("Annots")) == Some(Obj::Array(former.push(Obj::Reference(w))))
    &&& forall|key: Seq<u8>| key != lit("Annots") ==> #[trigger] lookup(with, key) == lookup(page, key)
}

/// The items of an update put the widget `w` on the page: into the array of annotations
/// where that is an object of its own, otherwise into the page.
pub open spec fn shown_on_page(doc: Doc, s: Seq<Item>, page_id: ObjectId, root: ObjectId, w: ObjectId) -> bool {
    dict_at(doc, page_id) matches Ok(page) && match lookup(page, lit("Annots")) {
        Some(Obj::Reference(r)) => !form_object(doc, root, r.0) ==> holds_object(
            s,
            r,
            Obj::Array(annotations(doc, page).push(Obj::Reference(w))),
        ),
        _ => !form_object(doc, root, page_id.0) ==> exists|with: Dict|
            #[trigger] holds_object(s, page_id, Obj::Dictionary(with)) && page_shows(
                page,
                with,
                annotations(doc, page),
                w,
            ),
    }
}

/// A form names the widget as its last field and says that the document has signatures
/// that are only to be appended to.
pub open spec fn form_names(doc: Doc, s: Seq<Item>, former: Dict, with: Dict, w: ObjectId) -> bool {
    &&& lookup(with, lit("SigFlags")) == Some(Obj::Integer(3))
    &&& match lookup(former, lit("Fields")) {
        Some(Obj::Reference(r)) => lookup(with, lit("Fields")) == Some(Obj::Reference(r)),
        Some(Obj::Array(a)) => lookup(with, lit("Fields")) == Some(Obj::Array(a.push(Obj::Reference(w)))),
        _ => lookup(with, lit("Fields")) == Some(Obj::Array(seq![Obj::Reference(w)])),
    }
    &&& forall|key: Seq<u8>|
        key != lit("Fields") && key != lit("SigFlags") ==> #[trigger] lookup(with, key) == lookup(former, key)
}

/// The items of an update register the widget in the form of the document: in the form's
/// own object where it has one, otherwise in the catalog, of which the other entries stay.
pub open spec fn registered_in_form(doc: Doc, s: Seq<Item>, root: ObjectId, w: ObjectId) -> bool {
    dict_at(doc, root) matches Ok(catalog) && match lookup(catalog, lit("AcroForm")) {
        Some(Obj::Reference(af)) => dict_at(doc, af) matches Ok(form) && exists|with: Dict|
            #[trigger] holds_object(s, af, Obj::Dictionary(with)) && form_names(doc, s, form, with, w),
        Some(Obj::Dictionary(form)) => exists|cat: Dict|
            #[trigger] holds_object(s, root, Obj::Dictionary(cat)) && catalog_names(doc, s, catalog, cat, form, w),
        _ => exists|cat: Dict|
            #[trigger] holds_object(s, root, Obj::Dictionary(cat)) && catalog_names(
                doc,
                s,
                catalog,
                cat,
                Seq::empty(),
                w,
            ),
    }
}

/// A catalog has a form that names the widget, and its other entries are as they were.
pub open spec fn catalog_names(doc: Doc, s: Seq<Item>, catalog: Dict, cat: Dict, form: Dict, w: ObjectId) -> bool {
    &&& lookup(cat, lit("AcroForm")) matches Some(Obj::Dictionary(with)) && form_names(doc, s, form, with, w)
    &&& forall|key: Seq<u8>| key != lit("AcroForm") ==> #[trigger] lookup(cat, key) == lookup(catalog, key)
}

proof fn lemma_form_keys()
    ensures
        lit("Fields") != lit("SigFlags"),
        lit("Annots") != lit("Fields"),
{
    reveal_strlit("Fields");
    reveal_strlit("SigFlags");
    reveal_strlit("Annots");
    lemma_lit("Fields");
    lemma_lit("SigFlags");
    lemma_lit("Annots");
    assert(lit("Fields")[0] == 0x46 && lit("Annots")[0] == 0x41);
}

proof fn lemma_put_page(page: Dict, former: Seq<Obj>, w: ObjectId)
    ensures
        page_shows(page, put(page, lit("Annots"), with_reference(former, w)), former, w),
{
    let with = put(page, lit("Annots"), with_reference(former, w));
    law_put_lookup(page, lit("Annots"), with_reference(former, w), lit("Annots"));
    assert forall|key: Seq<u8>| key != lit("Annots") implies #[trigger] lookup(with, key) == lookup(page, key) by {
        law_put_lookup(page, lit("Annots"), with_reference(former, w), key);
    }
}

/// The widget is added to the page that was asked for.
proof fn lemma_on_page(doc: Doc, s: Seq<Item>, page_id: ObjectId, w: ObjectId, root: ObjectId)
    requires
        ordered(s),
        widget_on_page(doc, s, page_id, w) is Ok,
    ensures
        ({
            let t = widget_on_page(doc, s, page_id, w)->Ok_0;
            let page = dict_at(doc, page_id)->Ok_0;
            &&& ordered(t)
            &&& dict_at(doc, page_id) is Ok
            &&& match lookup(page, lit("Annots")) {
                Some(Obj::Reference(r)) => holds_object(
                    t,
                    r,
                    Obj::Array(annotations(doc, page).push(Obj::Reference(w))),
                ) && array_at(doc, r) is Ok && forall|y: Item| y.id != r.0 && s.contains(y) ==> #[trigger] t.contains(y),
                _ => holds_object(
                    t,
                    page_id,
                    Obj::Dictionary(put(page, lit("Annots"), with_reference(annotations(doc, page), w))),
                ) && forall|y: Item| y.id != page_id.0 && s.contains(y) ==> #[trigger] t.contains(y),
            }
        }),
{
    let page = dict_at(doc, page_id)->Ok_0;
    match lookup(page, lit("Annots")) {
        Some(Obj::Reference(r)) => {
            let a = array_at(doc, r)->Ok_0;
            law_insert_item(s, (Item { id: r.0, gen: r.1, obj: with_reference(a, w) }));
        },
        Some(Obj::Array(a)) => {
            let o = Obj::Dictionary(put(page, lit("Annots"), with_reference(a, w)));
            law_insert_item(s, (Item { id: page_id.0, gen: page_id.1, obj: o }));
        },
        _ => {
            let o = Obj::Dictionary(put(page, lit("Annots"), with_reference(Seq::empty(), w)));
            law_insert_item(s, (Item { id: page_id.0, gen: page_id.1, obj: o }));
        },
    }
}

/// What the form changes of a dictionary of a form.
proof fn lemma_field_added(doc: Doc, s: Seq<Item>, form: Dict, w: ObjectId)
    requires
        ordered(s),
        field_in_form(doc, s, form, w) is Ok,
    ensures
        ({
            let (t, f) = field_in_form(doc, s, form, w)->Ok_0;
            &&& ordered(t)
            &&& form_names(doc, t, form, put(f, lit("SigFlags"), Obj::Integer(3)), w)
            &&& forall|y: Item| !fields_under(form, y.id) && s.contains(y) ==> #[trigger] t.contains(y)
        }),
{
    lemma_form_keys();
    let (t, f) = field_in_form(doc, s, form, w)->Ok_0;
    let with = put(f, lit("SigFlags"), Obj::Integer(3));
    law_put_lookup(f, lit("SigFlags"), Obj::Integer(3), lit("Fields"));
    match lookup(form, lit("Fields")) {
        Some(Obj::Reference(r)) => {
            let a = array_at(doc, r)->Ok_0;
            law_insert_item(s, (Item { id: r.0, gen: r.1, obj: with_reference(a, w) }));
        },
        Some(Obj::Array(a)) => {
            law_put_lookup(form, lit("Fields"), with_reference(a, w), lit("Fields"));
        },
        _ => {
            law_put_lookup(form, lit("Fields"), with_reference(Seq::empty(), w), lit("Fields"));
            assert(Seq::<Obj>::empty().push(Obj::Reference(w)) =~= seq![Obj::Reference(w)]);
        },
    }
    assert forall|key: Seq<u8>| key != lit("Fields") && key != lit("SigFlags") implies #[trigger] lookup(with, key)
        == lookup(form, key) by {
        law_put_lookup(f, lit("SigFlags"), Obj::Integer(3), key);
        match lookup(form, lit("Fields")) {
            Some(Obj::Reference(r)) => {},
            Some(Obj::Array(a)) => {
                law_put_lookup(form, lit("Fields"), with_reference(a, w), key);
            },
            _ => {
                law_put_lookup(form, lit("Fields"), with_reference(Seq::empty(), w), key);
            },
        }
    }
}

proof fn lemma_catalog_put(doc: Doc, s: Seq<Item>, catalog: Dict, form: Dict, with: Dict, w: ObjectId)
    requires
        form_names(doc, s, form, with, w),
    ensures
        catalog_names(doc, s, catalog, put(catalog, lit("AcroForm"), Obj::Dictionary(with)), form, w),
{
    let cat = put(catalog, lit("AcroForm"), Obj::Dictionary(with));
    law_put_lookup(catalog, lit("AcroForm"), Obj::Dictionary(with), lit("AcroForm"));
    assert forall|key: Seq<u8>| key != lit("AcroForm") implies #[trigger] lookup(cat, key) == lookup(catalog, key) by {
        law_put_lookup(catalog, lit("AcroForm"), Obj::Dictionary(with), key);
    }
}

proof fn lemma_new_form(doc: Doc, s: Seq<Item>, w: ObjectId)
    ensures
        form_names(
            doc,
            s,
            Seq::empty(),
            put(
                put(Seq::<(Seq<u8>, Obj)>::empty(), lit("Fields"), with_reference(Seq::empty(), w)),
                lit("SigFlags"),
                Obj::Integer(3),
            ),
            w,
        ),
{
    lemma_form_keys();
    let d = Seq::<(Seq<u8>, Obj)>::empty();
    let v = with_reference(Seq::empty(), w);
    let f = put(d, lit("Fields"), v);
    lemma_key_index(d, lit("Fields"), 0);
    law_put_lookup(d, lit("Fields"), v, lit("Fields"));
    law_put_lookup(f, lit("SigFlags"), Obj::Integer(3), lit("Fields"));
    assert(Seq::<Obj>::empty().push(Obj::Reference(w)) =~= seq![Obj::Reference(w)]);
    let with = put(f, lit("SigFlags"), Obj::Integer(3));
    assert forall|key: Seq<u8>| key != lit("Fields") && key != lit("SigFlags") implies #[trigger] lookup(with, key)
        == lookup(d, key) by {
        law_put_lookup(f, lit("SigFlags"), Obj::Integer(3), key);
        law_put_lookup(d, lit("Fields"), v, key);
    }
}

/// The widget is registered in the form, and items with other numbers stay.
proof fn lemma_registered(doc: Doc, s: Seq<Item>, root: ObjectId, w: ObjectId)
    requires
        ordered(s),
        field_registered(doc, s, root, w) is Ok,
    ensures
        ({
            let t = field_registered(doc, s, root, w)->Ok_0;
            &&& registered_in_form(doc, t, root, w)
            &&& forall|y: Item| !form_object(doc, root, y.id) && s.contains(y) ==> #[trigger] t.contains(y)
        }),
{
    let t = field_registered(doc, s, root, w)->Ok_0;
    let catalog = dict_at(doc, root)->Ok_0;
    match lookup(catalog, lit("AcroForm")) {
        Some(Obj::Reference(af)) => {
            let form = dict_at(doc, af)->Ok_0;
            lemma_field_added(doc, s, form, w);
            let (s1, f) = field_in_form(doc, s, form, w)->Ok_0;
            let with = put(f, lit("SigFlags"), Obj::Integer(3));
            let y = Item { id: af.0, gen: af.1, obj: Obj::Dictionary(with) };
            law_insert_item(s1, y);
            assert(holds_object(t, af, Obj::Dictionary(with)));
            assert(form_names(doc, t, form, with, w));
            assert forall|z: Item| !form_object(doc, root, z.id) && s.contains(z) implies #[trigger] t.contains(z) by {
                assert(s1.contains(z));
            }
        },
        Some(Obj::Dictionary(form)) => {
            lemma_field_added(doc, s, form, w);
            let (s1, f) = field_in_form(doc, s, form, w)->Ok_0;
            let with = put(f, lit("SigFlags"), Obj::Integer(3));
            let cat = put(catalog, lit("AcroForm"), Obj::Dictionary(with));
            law_insert_item(s1, (Item { id: root.0, gen: root.1, obj: Obj::Dictionary(cat) }));
            assert(form_names(doc, t, form, with, w));
            lemma_catalog_put(doc, t, catalog, form, with, w);
            assert(holds_object(t, root, Obj::Dictionary(cat)));
            assert forall|z: Item| !form_object(doc, root, z.id) && s.contains(z) implies #[trigger] t.contains(z) by {
                assert(s1.contains(z));
            }
        },
        _ => {
            lemma_new_form(doc, t, w);
            let with = put(
                put(Seq::<(Seq<u8>, Obj)>::empty(), lit("Fields"), with_reference(Seq::empty(), w)),
                lit("SigFlags"),
                Obj::Integer(3),
            );
            let cat = put(catalog, lit("AcroForm"), Obj::Dictionary(with));
            law_insert_item(s, (Item { id: root.0, gen: root.1, obj: Obj::Dictionary(cat) }));
            lemma_catalog_put(doc, t, catalog, Seq::empty(), with, w);
            assert(holds_object(t, root, Obj::Dictionary(cat)));
        },
    }
}

/// A dictionary of a widget: an invisible or visible field of type signature whose value is
/// the signature, with the rectangle and the form of its appearance where it has one.
pub open spec fn widget_shows(d: Dict, app: Option<Appearance>, sig: ObjectId) -> bool {
    &&& lookup(d, lit("Subtype")) == Some(Obj::Name(lit("Widget")))
    &&& lookup(d, lit("FT")) == Some(Obj::Name(lit("Sig")))
    &&& lookup(d, lit("V")) == Some(Obj::Reference(sig))
    &&& lookup(d, lit("F")) == Some(Obj::Integer(132))
    &&& match app {
        Some(a) => lookup(d, lit("AP")) is Some && (lookup(d, lit("Rect")) matches Some(Obj::Array(r)) && r.len() == 4 && r[0] == Obj::Real(a.left.bits, a.left.text@) && r[1] == Obj::Real(
            a.bottom.bits,
            a.bottom.text@,
        ) && r[2] == Obj::Real(a.right.bits, a.right.text@) && r[3] == Obj::Real(a.top.bits, a.top.text@)),
        None => lookup(d, lit("AP")) is None && (lookup(d, lit("Rect")) matches Some(Obj::Array(r)) && r.len() == 4
            && forall|i: int| 0 <= i < 4 ==> #[trigger] r[i] == crate::appearance::zero_real()),
    }
}

proof fn lemma_widget_keys()
    ensures
        lit("Type").len() == 4 && lit("Type")[0] == 0x54,
        lit("Subtype").len() == 7,
        lit("FT").len() == 2 && lit("FT")[0] == 0x46,
        lit("T").len() == 1 && lit("T")[0] == 0x54,
        lit("F").len() == 1 && lit("F")[0] == 0x46,
        lit("V").len() == 1 && lit("V")[0] == 0x56,
        lit("Rect").len() == 4 && lit("Rect")[0] == 0x52,
        lit("AP").len() == 2 && lit("AP")[0] == 0x41,
{
    reveal_strlit("Type");
    reveal_strlit("Subtype");
    reveal_strlit("FT");
    reveal_strlit("T");
    reveal_strlit("F");
    reveal_strlit("V");
    reveal_strlit("Rect");
    reveal_strlit("AP");
    lemma_lit("Type");
    lemma_lit("Subtype");
    lemma_lit("FT");
    lemma_lit("T");
    lemma_lit("F");
    lemma_lit("V");
    lemma_lit("Rect");
    lemma_lit("AP");
}

proof fn lemma_widget(app: Option<Appearance>, sig: ObjectId, form: Option<ObjectId>)
    requires
        app is Some <==> form is Some,
    ensures
        widget(app, sig, form) matches Obj::Dictionary(d) && widget_shows(d, app, sig),
{
    lemma_widget_keys();
    let d0 = Seq::<(Seq<u8>, Obj)>::empty();
    lemma_key_index(d0, lit("AP"), 0);
    let v1 = Obj::Name(lit("Annot"));
    let d1 = put(d0, lit("Type"), v1);
    let v2 = Obj::Name(lit("Widget"));
    let d2 = put(d1, lit("Subtype"), v2);
    let v3 = Obj::Name(lit("Sig"));
    let d3 = put(d2, lit("FT"), v3);
    let v4 = Obj::String(lit("Signature") + crate::util::dec(sig.0 as nat), StringFormat::Literal);
    let d4 = put(d3, lit("T"), v4);
    let v5 = Obj::Integer(132);
    let d5 = put(d4, lit("F"), v5);
    let v6 = Obj::Reference(sig);
    let d6 = put(d5, lit("V"), v6);
    law_put_lookup(d1, lit("Subtype"), v2, lit("Subtype"));
    law_put_lookup(d2, lit("FT"), v3, lit("Subtype"));
    law_put_lookup(d3, lit("T"), v4, lit("Subtype"));
    law_put_lookup(d4, lit("F"), v5, lit("Subtype"));
    law_put_lookup(d5, lit("V"), v6, lit("Subtype"));
    law_put_lookup(d3, lit("T"), v4, lit("FT"));
    law_put_lookup(d4, lit("F"), v5, lit("FT"));
    law_put_lookup(d5, lit("V"), v6, lit("FT"));
    law_put_lookup(d5, lit("V"), v6, lit("F"));
    law_put_lookup(d4, lit("F"), v5, lit("F"));
    law_put_lookup(d0, lit("Type"), v1, lit("AP"));
    law_put_lookup(d1, lit("Subtype"), v2, lit("AP"));
    law_put_lookup(d2, lit("FT"), v3, lit("AP"));
    law_put_lookup(d3, lit("T"), v4, lit("AP"));
    law_put_lookup(d4, lit("F"), v5, lit("AP"));
    law_put_lookup(d5, lit("V"), v6, lit("AP"));
    let rect = match app {
        Some(a) => crate::update::rect_of(a),
        None => Obj::Array(
            seq![
                crate::appearance::zero_real(),
                crate::appearance::zero_real(),
                crate::appearance::zero_real(),
                crate::appearance::zero_real(),
            ],
        ),
    };
    let d7 = put(d6, lit("Rect"), rect);
    law_put_lookup(d6, lit("Rect"), rect, lit("Subtype"));
    law_put_lookup(d6, lit("Rect"), rect, lit("FT"));
    law_put_lookup(d6, lit("Rect"), rect, lit("F"));
    law_put_lookup(d6, lit("Rect"), rect, lit("V"));
    law_put_lookup(d6, lit("Rect"), rect, lit("AP"));
    if let Some(id) = form {
        let n = Obj::Dictionary(put(Seq::<(Seq<u8>, Obj)>::empty(), lit("N"), Obj::Reference(id)));
        law_put_lookup(d7, lit("AP"), n, lit("Subtype"));
        law_put_lookup(d7, lit("AP"), n, lit("FT"));
        law_put_lookup(d7, lit("AP"), n, lit("F"));
        law_put_lookup(d7, lit("AP"), n, lit("V"));
        law_put_lookup(d7, lit("AP"), n, lit("Rect"));
        assert(widget(app, sig, form) == Obj::Dictionary(put(d7, lit("AP"), n)));
    } else {
        assert(widget(app, sig, form) == Obj::Dictionary(d7));
    }
}

/// The number of the page that options ask for: that of the appearance, or one.
pub open spec fn wanted_page(opts: SignOptions) -> usize {
    match opts.appearance {
        Some(a) => a.page,
        None => 1,
    }
}

/// Signing puts one widget for the signature on the page that was asked for, or on the
/// first page where there is no such page: the page's annotations are the former ones and
/// the widget. The widget's value is the signature, it has the rectangle of the appearance,
/// and the form of the document names it as a field. The objects of the form must be none
/// of those of the page.
pub proof fn law_signature_goes_on_its_page(doc: Doc, opts: SignOptions)
    requires
        numbered(doc),
    ensures
        signature_items(doc, opts) matches Ok((s, size, root)) ==> size <= u32::MAX ==> {
            let w: ObjectId = ((size - 1) as u32, 0);
            let sig: ObjectId = ((doc.max_id + 1) as u32, 0);
            &&& page_of(doc, wanted_page(opts)) matches Ok(page) && shown_on_page(doc, s, page, root, w)
            &&& registered_in_form(doc, s, root, w)
            &&& root_of(doc) == Ok::<ObjectId, ErrorView>(root)
            &&& (forall|id: u32| #[trigger] form_object(doc, root, id) ==> id <= doc.max_id) ==> exists|d: Dict|
                #[trigger] holds_object(s, w, Obj::Dictionary(d)) && widget_shows(d, opts.appearance, sig)
        },
{
    reveal(signature_items);
    if let Ok((s, size, root)) = signature_items(doc, opts) {
        if size <= u32::MAX {
            let sig = doc.max_id + 1;
            let x = sig_item(doc, opts);
            let s0 = add_fresh(Seq::empty(), sig, sig_dict(opts));
            law_insert_item(Seq::<Item>::empty(), x);
            assert(s0 =~= seq![x]);
            let (s1, n, form) = form_items(s0, sig + 1, opts.appearance)->Ok_0;
            lemma_form_numbers(s0, sig + 1, opts.appearance);
            lemma_form_keeps(doc, s0, sig + 1, opts.appearance, x);
            let y = Item { id: n as u32, gen: 0, obj: widget(opts.appearance, fresh(sig), form) };
            lemma_widget_rangeless(opts.appearance, fresh(sig), form);
            lemma_add_keeps(doc, s1, y, x);
            law_insert_item(s1, y);
            let s2 = insert_item(s1, y);
            let page = page_of(doc, wanted_page(opts))->Ok_0;
            lemma_placed(doc, s2, page, root, fresh(n), y);
            lemma_widget(opts.appearance, fresh(sig), form);
            if forall|id: u32| #[trigger] form_object(doc, root, id) ==> id <= doc.max_id {
                assert(s.contains(y));
                let d = y.obj->Dictionary_0;
                assert(y.obj == Obj::Dictionary(d));
                assert(holds_object(s, (y.id, 0u16), Obj::Dictionary(d)));
            }
        }
    }
}

/// What placing a widget does, and that an item with a new number stays.
proof fn lemma_placed(doc: Doc, s: Seq<Item>, page_id: ObjectId, root: ObjectId, w: ObjectId, y: Item)
    requires
        numbered(doc),
        ordered(s),
        s.contains(y),
        y.id > doc.max_id,
        crate::update::placed(doc, s, page_id, root, w) is Ok,
    ensures
        ({
            let t = crate::update::placed(doc, s, page_id, root, w)->Ok_0;
            &&& shown_on_page(doc, t, page_id, root, w)
            &&& registered_in_form(doc, t, root, w)
            &&& (forall|id: u32| #[trigger] form_object(doc, root, id) ==> id <= doc.max_id) ==> t.contains(y)
        }),
{
    let s3 = widget_on_page(doc, s, page_id, w)->Ok_0;
    let t = field_registered(doc, s3, root, w)->Ok_0;
    lemma_on_page(doc, s, page_id, w, root);
    lemma_registered(doc, s3, root, w);
    let page = dict_at(doc, page_id)->Ok_0;
    lemma_numbered(doc, page_id);
    match lookup(page, lit("Annots")) {
        Some(Obj::Reference(r)) => {
            lemma_numbered(doc, r);
            let z = Item { id: r.0, gen: r.1, obj: Obj::Array(annotations(doc, page).push(Obj::Reference(w))) };
            assert(s3.contains(z));
            assert(s3.contains(y));
            if !form_object(doc, root, r.0) {
                assert(t.contains(z));
            }
        },
        _ => {
            let with = put(page, lit("Annots"), with_reference(annotations(doc, page), w));
            lemma_put_page(page, annotations(doc, page), w);
            let z = Item { id: page_id.0, gen: page_id.1, obj: Obj::Dictionary(with) };
            assert(s3.contains(z));
            assert(s3.contains(y));
            if !form_object(doc, root, page_id.0) {
                assert(t.contains(z));
                assert(holds_object(t, page_id, Obj::Dictionary(with)));
            }
        },
    }
    if forall|id: u32| #[trigger] form_object(doc, root, id) ==> id <= doc.max_id {
        assert(!form_object(doc, root, y.id));
        assert(t.contains(y));
    }
}

/// A document timestamp puts one invisible widget on the first page, and the form of the
/// document names it as a field.
pub proof fn law_timestamp_goes_on_the_first_page(doc: Doc, capacity: nat)
    requires
        numbered(doc),
    ensures
        timestamp_items(doc, capacity) matches Ok((s, size, root)) ==> size <= u32::MAX ==> {
            let w: ObjectId = ((doc.max_id + 2) as u32, 0);
            let sig: ObjectId = ((doc.max_id + 1) as u32, 0);
            &&& page_of(doc, 1) matches Ok(page) && shown_on_page(doc, s, page, root, w)
            &&& registered_in_form(doc, s, root, w)
            &&& (forall|id: u32| #[trigger] form_object(doc, root, id) ==> id <= doc.max_id) ==> exists|d: Dict|
                #[trigger] holds_object(s, w, Obj::Dictionary(d)) && widget_shows(d, None, sig)
        },
{
    reveal(timestamp_items);
    if let Ok((s, size, root)) = timestamp_items(doc, capacity) {
        if size <= u32::MAX {
            let ts = doc.max_id + 1;
            let x = stamp_item(doc, capacity);
            let s0 = add_fresh(Seq::empty(), ts, crate::update::doctimestamp_dict(capacity));
            law_insert_item(Seq::<Item>::empty(), x);
            assert(s0 =~= seq![x]);
            let y = Item { id: (ts + 1) as u32, gen: 0, obj: widget(None, fresh(ts), None) };
            lemma_widget_rangeless(None, fresh(ts), None);
            lemma_add_keeps(doc, s0, y, x);
            law_insert_item(s0, y);
            let page = page_of(doc, 1)->Ok_0;
            lemma_placed(doc, insert_item(s0, y), page, root, fresh(ts + 1), y);
            lemma_widget(None, fresh(ts), None);
            if forall|id: u32| #[trigger] form_object(doc, root, id) ==> id <= doc.max_id {
                assert(s.contains(y));
                let d = y.obj->Dictionary_0;
                assert(y.obj == Obj::Dictionary(d));
                assert(holds_object(s, (y.id, 0u16), Obj::Dictionary(d)));
            }
        }
    }
}

// ---------------------------------------------------------------------------
// What an update leaves alone

/// An update writes under a number: a new one, or that of the page or its annotations, of
/// the catalog or of the form.
pub open spec fn may_change(doc: Doc, page_id: ObjectId, root: ObjectId, id: u32) -> bool {
    ||| id > doc.max_id
    ||| form_object(doc, root, id)
    ||| dict_at(doc, page_id) matches Ok(page) && match lookup(page, lit("Annots")) {
        Some(Obj::Reference(r)) => id == r.0,
        _ => id == page_id.0,
    }
}

/// All items have numbers from the given one on.
spec fn numbered_from(s: Seq<Item>, n: int) -> bool {
    forall|y: Item| #[trigger] s.contains(y) ==> y.id >= n
}

proof fn lemma_add_from(s: Seq<Item>, n: int, id: int, o: Obj)
    requires
        ordered(s),
        numbered_from(s, n),
        n <= id <= u32::MAX,
        0 <= n,
    ensures
        ordered(add_fresh(s, id, o)),
        numbered_from(add_fresh(s, id, o), n),
{
    let x = Item { id: id as u32, gen: 0, obj: o };
    law_insert_item(s, x);
    assert forall|y: Item| #[trigger] add_fresh(s, id, o).contains(y) implies y.id >= n by {
        if y.id != x.id {
            assert(s.contains(y));
        }
    }
}

proof fn lemma_form_from(s: Seq<Item>, n: int, m: int, app: Option<Appearance>)
    requires
        ordered(s),
        numbered_from(s, n),
        0 <= n <= m,
        form_items(s, m, app) matches Ok((_, next, _)) && next <= u32::MAX,
    ensures
        form_items(s, m, app) matches Ok((t, _, _)) && ordered(t) && numbered_from(t, n),
{
    if let Some(a) = app {
        let (s1, n1) = font_added(s, m, a.font)->Ok_0;
        let (s2, n2, img) = image_added(s1, n1, a.image)->Ok_0;
        match a.font {
            Some(f) => {
                let h = font_header(f@)->Ok_0;
                let one = font_obj(f@, h.units_per_em, fresh(m + 1));
                let two = descriptor_obj(h, fresh(m + 2));
                lemma_add_from(s, n, m, one);
                lemma_add_from(add_fresh(s, m, one), n, m + 1, two);
                lemma_add_from(add_fresh(add_fresh(s, m, one), m + 1, two), n, m + 2, fontfile_obj(f@));
            },
            None => {
                lemma_add_from(s, n, m, helvetica_obj());
            },
        }
        if let Some(b) = a.image {
            let i = image_of(b@)->Ok_0;
            match i.smask {
                Some(mask) => {
                    let o = image_obj(i.width, i.height, "DeviceGray"@, "FlateDecode"@, mask, None);
                    lemma_add_from(s1, n, n1, o);
                    lemma_add_from(
                        add_fresh(s1, n1, o),
                        n,
                        n1 + 1,
                        image_obj(i.width, i.height, i.color_space, i.filter, i.data, Some(fresh(n1))),
                    );
                },
                None => {
                    lemma_add_from(s1, n, n1, image_obj(i.width, i.height, i.color_space, i.filter, i.data, None));
                },
            }
        }
        lemma_add_from(s2, n, n2, form_obj(a, m, img));
    }
}

proof fn lemma_placed_changes(doc: Doc, s: Seq<Item>, page_id: ObjectId, root: ObjectId, w: ObjectId, y: Item)
    requires
        ordered(s),
        numbered_from(s, doc.max_id + 1),
        crate::update::placed(doc, s, page_id, root, w) is Ok,
        crate::update::placed(doc, s, page_id, root, w)->Ok_0.contains(y),
    ensures
        may_change(doc, page_id, root, y.id),
{
    let s3 = widget_on_page(doc, s, page_id, w)->Ok_0;
    let t = field_registered(doc, s3, root, w)->Ok_0;
    lemma_on_page(doc, s, page_id, w, root);
    let page = dict_at(doc, page_id)->Ok_0;
    let catalog = dict_at(doc, root)->Ok_0;
    if !form_object(doc, root, y.id) {
        match lookup(catalog, lit("AcroForm")) {
            Some(Obj::Reference(af)) => {
                let form = dict_at(doc, af)->Ok_0;
                let (s4, f) = field_in_form(doc, s3, form, w)->Ok_0;
                lemma_field_from(doc, s3, form, w, y);
                law_insert_item(
                    s4,
                    (Item { id: af.0, gen: af.1, obj: Obj::Dictionary(put(f, lit("SigFlags"), Obj::Integer(3))) }),
                );
            },
            Some(Obj::Dictionary(form)) => {
                let (s4, f) = field_in_form(doc, s3, form, w)->Ok_0;
                lemma_field_from(doc, s3, form, w, y);
                let o = Obj::Dictionary(
                    put(catalog, lit("AcroForm"), Obj::Dictionary(put(f, lit("SigFlags"), Obj::Integer(3)))),
                );
                law_insert_item(s4, (Item { id: root.0, gen: root.1, obj: o }));
            },
            _ => {
                let form = put(
                    put(Seq::<(Seq<u8>, Obj)>::empty(), lit("Fields"), with_reference(Seq::empty(), w)),
                    lit("SigFlags"),
                    Obj::Integer(3),
                );
                let o = Obj::Dictionary(put(catalog, lit("AcroForm"), Obj::Dictionary(form)));
                law_insert_item(s3, (Item { id: root.0, gen: root.1, obj: o }));
            },
        }
        assert(s3.contains(y));
        let (id, gen, o) = match lookup(page, lit("Annots")) {
            Some(Obj::Reference(r)) => (r.0, r.1, with_reference(array_at(doc, r)->Ok_0, w)),
            Some(Obj::Array(a)) => (
                page_id.0,
                page_id.1,
                Obj::Dictionary(put(page, lit("Annots"), with_reference(a, w))),
            ),
            _ => (page_id.0, page_id.1, Obj::Dictionary(put(page, lit("Annots"), with_reference(Seq::empty(), w)))),
        };
        let x = Item { id, gen, obj: o };
        law_insert_item(s, x);
        assert(s3 == insert_item(s, x));
        if y.id != id {
            assert(s.contains(y));
            assert(y.id > doc.max_id);
        }
    }
}

proof fn lemma_field_from(doc: Doc, s: Seq<Item>, form: Dict, w: ObjectId, y: Item)
    requires
        ordered(s),
        field_in_form(doc, s, form, w) is Ok,
        !fields_under(form, y.id),
    ensures
        field_in_form(doc, s, form, w) matches Ok((t, _)) && ordered(t) && (t.contains(y) ==> s.contains(y)),
{
    if let Some(Obj::Reference(r)) = lookup(form, lit("Fields")) {
        let a = array_at(doc, r)->Ok_0;
        law_insert_item(s, (Item { id: r.0, gen: r.1, obj: with_reference(a, w) }));
    }
}

/// Signing writes new objects, and of the others only the page or its annotations, the
/// catalog and the form: every other object of the document stays as it is.
pub proof fn law_signing_leaves_the_rest(doc: Doc, opts: SignOptions, y: Item)
    ensures
        signature_items(doc, opts) matches Ok((s, size, root)) ==> size <= u32::MAX && s.contains(y) ==> (page_of(
            doc,
            wanted_page(opts),
        ) matches Ok(page) && may_change(doc, page, root, y.id)),
{
    reveal(signature_items);
    if let Ok((s, size, root)) = signature_items(doc, opts) {
        if size <= u32::MAX && s.contains(y) {
            let sig = doc.max_id + 1;
            lemma_form_numbers(
                add_fresh(Seq::empty(), sig, sig_dict(opts)),
                sig + 1,
                opts.appearance,
            );
            lemma_add_from(Seq::empty(), sig, sig, sig_dict(opts));
            let s0 = add_fresh(Seq::empty(), sig, sig_dict(opts));
            lemma_form_from(s0, sig, sig + 1, opts.appearance);
            let (s1, n, form) = form_items(s0, sig + 1, opts.appearance)->Ok_0;
            lemma_add_from(s1, sig, n, widget(opts.appearance, fresh(sig), form));
            let s2 = add_fresh(s1, n, widget(opts.appearance, fresh(sig), form));
            let page = page_of(doc, wanted_page(opts))->Ok_0;
            lemma_placed_changes(doc, s2, page, root, fresh(n), y);
        }
    }
}

} // verus!
