//! The signature dictionary of an update carries the placeholders that signing finds.
use vstd::prelude::*;

use crate::appearance::{
    add_fresh, descriptor_obj, font_added, font_header, font_obj, fontfile_obj, form_obj, fresh, helvetica_obj, image_added,
    image_obj, image_of, widths_of, zero_real, FontHeaderView,
};
use crate::error::ErrorView;
use crate::document::{array_at, dict_at, object_at, Doc};
use crate::incremental::{
    insert_item, item_bytes, items_bytes, law_insert_item, law_update_offsets, ordered, startxref, updated,
    with_line_end, Item,
};
use crate::locate::{signature_in, SigView};
use crate::object::{law_put_lookup, lemma_key_index, lookup, put, Dict, Obj, ObjectId, StringFormat};
use crate::options::{Appearance, SignOptions};
use crate::placeholder_laws::{contents_key, is_range_char, no_range_between, placeholders_at, range_key};
use crate::scaling::scaled;
use crate::update::{
    add_object, appended, contents_placeholder, doctimestamp_dict, field_in_form, field_registered, form_items, literal,
    page_of, put_text, range_placeholder, rect_of, sig_dict, sig_head, signature_items, signature_update, timestamp_items,
    timestamp_update, widget, widget_on_page, with_reference,
};
use crate::util::{dec, hex, lemma_dec, lemma_lit, lit, occurs_at};
use crate::writer::{
    elements_bytes, entries_bytes, entry_bytes, is_regular, name_bytes, name_chars, object_bytes, written,
};

verus! {

// ---------------------------------------------------------------------------
// Names

/// A name of regular characters that does not begin with `B`.
pub open spec fn plain_name(n: Seq<u8>) -> bool {
    &&& n.len() > 0
    &&& n[0] != 0x42
    &&& forall|i: int| 0 <= i < n.len() ==> is_regular(#[trigger] n[i])
}

/// Every slash of the text is followed by something else than `B`.
pub open spec fn quiet(s: Seq<u8>) -> bool {
    forall|i: int| 0 <= i < s.len() && #[trigger] s[i] == 0x2f ==> i + 1 < s.len() && s[i + 1] != 0x42
}

proof fn lemma_quiet_sum(a: Seq<u8>, b: Seq<u8>)
    requires
        quiet(a),
        quiet(b),
    ensures
        quiet(a + b),
{
    let s = a + b;
    assert forall|i: int| 0 <= i < s.len() && #[trigger] s[i] == 0x2f implies i + 1 < s.len() && s[i + 1] != 0x42 by {
        if i < a.len() {
            assert(a[i] == 0x2f);
            assert(s[i + 1] == a[i + 1]);
        } else {
            assert(b[i - a.len()] == 0x2f);
            assert(s[i + 1] == b[i + 1 - a.len()]);
        }
    }
}

proof fn lemma_regular_name(n: Seq<u8>)
    requires
        forall|i: int| 0 <= i < n.len() ==> is_regular(#[trigger] n[i]),
    ensures
        name_chars(n) == n,
        name_bytes(n) == seq![0x2fu8] + n,
    decreases n.len(),
{
    reveal_strlit("/");
    lemma_lit("/");
    if n.len() > 0 {
        lemma_regular_name(n.drop_last());
        assert(is_regular(n[n.len() - 1]));
        assert(name_chars(n) =~= n);
    } else {
        assert(name_chars(n) =~= n);
    }
    assert(name_bytes(n) =~= seq![0x2fu8] + n);
}

/// A plain name is written as it is, behind its slash.
pub proof fn lemma_plain_name(n: Seq<u8>)
    requires
        plain_name(n),
    ensures
        name_bytes(n) == seq![0x2fu8] + n,
        quiet(name_bytes(n)),
{
    lemma_regular_name(n);
    let s = name_bytes(n);
    assert forall|i: int| 0 <= i < s.len() && #[trigger] s[i] == 0x2f implies i + 1 < s.len() && s[i + 1] != 0x42 by {
        if i > 0 {
            assert(is_regular(n[i - 1]));
        }
    }
}

proof fn lemma_type_is_plain()
    ensures
        plain_name(lit("Type")),
        plain_name(lit("Filter")),
{
    reveal_strlit("Type");
    lemma_lit("Type");
    assert(lit("Type") =~= seq![0x54u8, 0x79u8, 0x70u8, 0x65u8]);
    reveal_strlit("Filter");
    lemma_lit("Filter");
    assert(lit("Filter") =~= seq![0x46u8, 0x69u8, 0x6cu8, 0x74u8, 0x65u8, 0x72u8]);
}

/// The key of the subfilter.
pub proof fn lemma_subfilter_is_plain()
    ensures
        plain_name(lit("SubFilter")),
{
    reveal_strlit("SubFilter");
    lemma_lit("SubFilter");
    assert(lit("SubFilter") =~= seq![0x53u8, 0x75u8, 0x62u8, 0x46u8, 0x69u8, 0x6cu8, 0x74u8, 0x65u8, 0x72u8]);
}

proof fn lemma_filter_is_plain()
    ensures
        plain_name(lit("Adobe.PPKLite")),
{
    reveal_strlit("Adobe.PPKLite");
    lemma_lit("Adobe.PPKLite");
    assert(lit("Adobe.PPKLite") =~= seq![
        0x41u8,
        0x64u8,
        0x6fu8,
        0x62u8,
        0x65u8,
        0x2eu8,
        0x50u8,
        0x50u8,
        0x4bu8,
        0x4cu8,
        0x69u8,
        0x74u8,
        0x65u8,
    ]);
}

/// The type and the subfilter of a signature.
pub proof fn lemma_signature_names_are_plain()
    ensures
        plain_name(lit("Sig")),
        plain_name(lit("ETSI.CAdES.detached")),
{
    reveal_strlit("Sig");
    lemma_lit("Sig");
    assert(lit("Sig") =~= seq![0x53u8, 0x69u8, 0x67u8]);
    reveal_strlit("ETSI.CAdES.detached");
    lemma_lit("ETSI.CAdES.detached");
    assert(lit("ETSI.CAdES.detached") =~= seq![
        0x45u8,
        0x54u8,
        0x53u8,
        0x49u8,
        0x2eu8,
        0x43u8,
        0x41u8,
        0x64u8,
        0x45u8,
        0x53u8,
        0x2eu8,
        0x64u8,
        0x65u8,
        0x74u8,
        0x61u8,
        0x63u8,
        0x68u8,
        0x65u8,
        0x64u8,
    ]);
}

/// The type and the subfilter of a document timestamp.
pub proof fn lemma_timestamp_names_are_plain()
    ensures
        plain_name(lit("DocTimeStamp")),
        plain_name(lit("ETSI.RFC3161")),
{
    reveal_strlit("DocTimeStamp");
    lemma_lit("DocTimeStamp");
    assert(lit("DocTimeStamp") =~= seq![
        0x44u8,
        0x6fu8,
        0x63u8,
        0x54u8,
        0x69u8,
        0x6du8,
        0x65u8,
        0x53u8,
        0x74u8,
        0x61u8,
        0x6du8,
        0x70u8,
    ]);
    reveal_strlit("ETSI.RFC3161");
    lemma_lit("ETSI.RFC3161");
    assert(lit("ETSI.RFC3161") =~= seq![
        0x45u8,
        0x54u8,
        0x53u8,
        0x49u8,
        0x2eu8,
        0x52u8,
        0x46u8,
        0x43u8,
        0x33u8,
        0x31u8,
        0x36u8,
        0x31u8,
    ]);
}

// ---------------------------------------------------------------------------
// The dictionary

/// A signature dictionary as it is written, up to its byte range.
pub open spec fn sig_front(kind: Seq<u8>, subfilter: Seq<u8>) -> Seq<u8> {
    lit("<< ") + entry_bytes(lit("Type"), name_bytes(kind)) + entry_bytes(
        lit("Filter"),
        name_bytes(lit("Adobe.PPKLite")),
    ) + entry_bytes(lit("SubFilter"), name_bytes(subfilter))
}

/// The numbers of the placeholder.
pub open spec fn nines() -> Seq<u8> {
    elements_bytes(range_placeholder()->Array_0)
}

proof fn lemma_nines()
    ensures
        nines().len() == 34,
        forall|i: int| 0 <= i < 34 ==> is_range_char(#[trigger] nines()[i]),
{
    let n = 9_999_999_999int;
    let a = range_placeholder()->Array_0;
    reveal_with_fuel(dec, 11);
    assert(dec(9_999_999_999).len() == 10);
    lemma_dec(9_999_999_999);
    lemma_dec(0);
    reveal_strlit(" ");
    lemma_lit(" ");
    let a3 = a.drop_last();
    let a2 = a3.drop_last();
    let a1 = a2.drop_last();
    assert(a1.drop_last() =~= Seq::empty());
    assert(a1.last() == Obj::Integer(0) && a2.last() == a[1] && a3.last() == a[2]);
    let d = dec(9_999_999_999);
    assert(object_bytes(a[0]) == dec(0));
    assert(object_bytes(a[1]) == d);
    assert(object_bytes(a[2]) == d);
    assert(object_bytes(a[3]) == d);
    assert(elements_bytes(Seq::<Obj>::empty()) =~= Seq::empty());
    assert(elements_bytes(a1) =~= dec(0));
    assert(elements_bytes(a2) == dec(0) + lit(" ") + d);
    assert(elements_bytes(a3) == dec(0) + lit(" ") + d + lit(" ") + d);
    assert(nines() == dec(0) + lit(" ") + d + lit(" ") + d + lit(" ") + d);
    assert forall|i: int| 0 <= i < 34 implies is_range_char(#[trigger] nines()[i]) by {
        if 2 <= i < 12 {
            assert(nines()[i] == d[i - 2]);
        } else if 13 <= i < 23 {
            assert(nines()[i] == d[i - 13]);
        } else if 24 <= i < 34 {
            assert(nines()[i] == d[i - 24]);
        }
    }
}

/// The keys that a signature dictionary begins with.
pub proof fn lemma_head_keys()
    ensures
        lit("Type").len() == 4,
        lit("Filter").len() == 6,
        lit("SubFilter").len() == 9,
        lit("ByteRange") == seq![0x42u8, 0x79u8, 0x74u8, 0x65u8, 0x52u8, 0x61u8, 0x6eu8, 0x67u8, 0x65u8],
        lit("Contents") == seq![0x43u8, 0x6fu8, 0x6eu8, 0x74u8, 0x65u8, 0x6eu8, 0x74u8, 0x73u8],
        lit("SubFilter")[0] == 0x53,
        lit("Type")[0] == 0x54,
        lit("Filter")[0] == 0x46,
{
    reveal_strlit("Type");
    reveal_strlit("Filter");
    reveal_strlit("SubFilter");
    reveal_strlit("ByteRange");
    reveal_strlit("Contents");
    lemma_lit("Type");
    lemma_lit("Filter");
    lemma_lit("SubFilter");
    lemma_lit("ByteRange");
    lemma_lit("Contents");
    assert(lit("ByteRange") =~= seq![0x42u8, 0x79u8, 0x74u8, 0x65u8, 0x52u8, 0x61u8, 0x6eu8, 0x67u8, 0x65u8]);
    assert(lit("Contents") =~= seq![0x43u8, 0x6fu8, 0x6eu8, 0x74u8, 0x65u8, 0x6eu8, 0x74u8, 0x73u8]);
}

/// The entries that a signature dictionary begins with.
pub proof fn lemma_head(kind: Seq<u8>, subfilter: Seq<u8>, capacity: nat)
    ensures
        sig_head(kind, subfilter, capacity) == seq![
            (lit("Type"), Obj::Name(kind)),
            (lit("Filter"), Obj::Name(lit("Adobe.PPKLite"))),
            (lit("SubFilter"), Obj::Name(subfilter)),
            (lit("ByteRange"), range_placeholder()),
            (lit("Contents"), contents_placeholder(capacity)),
        ],
{
    lemma_head_keys();
    let d0 = Seq::<(Seq<u8>, Obj)>::empty();
    lemma_key_index(d0, lit("Type"), 0);
    let d1 = put(d0, lit("Type"), Obj::Name(kind));
    lemma_key_index(d1, lit("Filter"), 0);
    let d2 = put(d1, lit("Filter"), Obj::Name(lit("Adobe.PPKLite")));
    lemma_key_index(d2, lit("SubFilter"), 0);
    let d3 = put(d2, lit("SubFilter"), Obj::Name(subfilter));
    lemma_key_index(d3, lit("ByteRange"), 0);
    let d4 = put(d3, lit("ByteRange"), range_placeholder());
    lemma_key_index(d4, lit("Contents"), 0);
    assert(sig_head(kind, subfilter, capacity) =~= seq![
        (lit("Type"), Obj::Name(kind)),
        (lit("Filter"), Obj::Name(lit("Adobe.PPKLite"))),
        (lit("SubFilter"), Obj::Name(subfilter)),
        (lit("ByteRange"), range_placeholder()),
        (lit("Contents"), contents_placeholder(capacity)),
    ]);
}

/// A dictionary that begins with the entries of every signature dictionary.
pub open spec fn begins_as_signature(d: Dict, kind: Seq<u8>, subfilter: Seq<u8>, capacity: nat) -> bool {
    d.len() >= 5 && d.take(5) == sig_head(kind, subfilter, capacity)
}

/// The entries of a dictionary begin with those of its first part.
proof fn lemma_entries_prefix(e: Seq<(Seq<u8>, Seq<u8>)>, k: int)
    requires
        0 <= k <= e.len(),
    ensures
        entries_bytes(e.take(k)).len() <= entries_bytes(e).len(),
        entries_bytes(e).take(entries_bytes(e.take(k)).len() as int) == entries_bytes(e.take(k)),
    decreases e.len() - k,
{
    let a = entries_bytes(e.take(k));
    if k < e.len() {
        lemma_entries_prefix(e.drop_last(), k);
        assert(e.drop_last().take(k) =~= e.take(k));
        assert(entries_bytes(e).take(a.len() as int) =~= entries_bytes(e.drop_last()).take(a.len() as int));
    } else {
        assert(e.take(k) =~= e);
        assert(a.take(a.len() as int) =~= a);
    }
}

/// The head of a signature dictionary as it is written: its front, the byte range, and
/// the contents.
proof fn lemma_head_written(d: Dict, kind: Seq<u8>, subfilter: Seq<u8>, capacity: nat)
    requires
        begins_as_signature(d, kind, subfilter, capacity),
    ensures
        ({
            let t = sig_front(kind, subfilter) + entry_bytes(
                lit("ByteRange"),
                lit("[") + nines() + lit("]"),
            ) + entry_bytes(lit("Contents"), lit("<") + hex(Seq::new(capacity, |i: int| 0u8)) + lit(">"));
            let o = object_bytes(Obj::Dictionary(d));
            t.len() <= o.len() && o.take(t.len() as int) == t
        }),
{
    lemma_head(kind, subfilter, capacity);
    let h = sig_head(kind, subfilter, capacity);
    let e = written(d);
    crate::writer::lemma_written(d);
    crate::writer::lemma_written(h);
    let w = e.take(5);
    assert(w =~= written(h)) by {
        assert forall|i: int| 0 <= i < 5 implies w[i] == #[trigger] written(h)[i] by {
            assert(d.take(5)[i] == d[i]);
        }
    }
    let w4 = w.drop_last();
    let w3 = w4.drop_last();
    let w2 = w3.drop_last();
    let w1 = w2.drop_last();
    assert(w1.drop_last() =~= Seq::empty());
    assert(w4.last() == w[3] && w3.last() == w[2] && w2.last() == w[1] && w1.last() == w[0]);
    assert(entries_bytes(Seq::<(Seq<u8>, Seq<u8>)>::empty()) =~= Seq::empty());
    let e1 = entry_bytes(lit("Type"), name_bytes(kind));
    let e2 = entry_bytes(lit("Filter"), name_bytes(lit("Adobe.PPKLite")));
    let e3 = entry_bytes(lit("SubFilter"), name_bytes(subfilter));
    let e4 = entry_bytes(lit("ByteRange"), lit("[") + nines() + lit("]"));
    let e5 = entry_bytes(lit("Contents"), lit("<") + hex(Seq::new(capacity, |i: int| 0u8)) + lit(">"));
    assert(w[3] == (lit("ByteRange"), lit("[") + nines() + lit("]")));
    assert(w[4] == (lit("Contents"), lit("<") + hex(Seq::new(capacity, |i: int| 0u8)) + lit(">")));
    assert(entries_bytes(w1) =~= e1);
    assert(entries_bytes(w2) == e1 + e2);
    assert(entries_bytes(w3) == e1 + e2 + e3);
    assert(entries_bytes(w4) == e1 + e2 + e3 + e4);
    assert(entries_bytes(w) == e1 + e2 + e3 + e4 + e5);
    lemma_entries_prefix(e, 5);
    let o = object_bytes(Obj::Dictionary(d));
    let t = sig_front(kind, subfilter) + e4 + e5;
    assert(o == lit("<< ") + entries_bytes(e) + lit(">>"));
    assert(t =~= lit("<< ") + entries_bytes(w));
    assert(o.take(t.len() as int) =~= t) by {
        assert(o.take(t.len() as int) =~= lit("<< ") + entries_bytes(e).take(entries_bytes(w).len() as int));
    }
}

/// The front of a signature dictionary holds no other byte range.
proof fn lemma_front_is_quiet(kind: Seq<u8>, subfilter: Seq<u8>)
    requires
        plain_name(kind),
        plain_name(subfilter),
    ensures
        quiet(sig_front(kind, subfilter)),
{
    lemma_type_is_plain();
    lemma_subfilter_is_plain();
    lemma_filter_is_plain();
    reveal_strlit(" ");
    reveal_strlit("<< ");
    lemma_lit(" ");
    lemma_lit("<< ");
    assert(lit(" ") =~= seq![0x20u8]);
    assert(lit("<< ") =~= seq![0x3cu8, 0x3cu8, 0x20u8]);
    assert(quiet(lit("<< ")));
    lemma_quiet_entry(lit("Type"), kind);
    lemma_quiet_entry(lit("Filter"), lit("Adobe.PPKLite"));
    lemma_quiet_entry(lit("SubFilter"), subfilter);
    let a = lit("<< ") + entry_bytes(lit("Type"), name_bytes(kind));
    let b = a + entry_bytes(lit("Filter"), name_bytes(lit("Adobe.PPKLite")));
    lemma_quiet_sum(lit("<< "), entry_bytes(lit("Type"), name_bytes(kind)));
    lemma_quiet_sum(a, entry_bytes(lit("Filter"), name_bytes(lit("Adobe.PPKLite"))));
    lemma_quiet_sum(b, entry_bytes(lit("SubFilter"), name_bytes(subfilter)));
}

proof fn lemma_quiet_entry(key: Seq<u8>, value: Seq<u8>)
    requires
        plain_name(key),
        plain_name(value),
    ensures
        quiet(entry_bytes(key, name_bytes(value))),
{
    reveal_strlit(" ");
    lemma_lit(" ");
    assert(lit(" ") =~= seq![0x20u8]);
    assert(quiet(lit(" ")));
    lemma_plain_name(key);
    lemma_plain_name(value);
    lemma_quiet_sum(name_bytes(key), lit(" "));
    lemma_quiet_sum(name_bytes(key) + lit(" "), name_bytes(value));
    lemma_quiet_sum(name_bytes(key) + lit(" ") + name_bytes(value), lit(" "));
}

// ---------------------------------------------------------------------------
// The object

/// How an indirect object begins.
pub open spec fn item_front(x: Item) -> Seq<u8> {
    dec(x.id as nat) + lit(" ") + dec(x.gen as nat) + lit(" obj\n")
}

proof fn lemma_item_front_is_quiet(x: Item)
    ensures
        quiet(item_front(x)),
{
    lemma_dec(x.id as nat);
    lemma_dec(x.gen as nat);
    reveal_strlit(" ");
    reveal_strlit(" obj\n");
    lemma_lit(" ");
    lemma_lit(" obj\n");
    assert(lit(" ") =~= seq![0x20u8]);
    assert(lit(" obj\n") =~= seq![0x20u8, 0x6fu8, 0x62u8, 0x6au8, 0x0au8]);
    assert(quiet(dec(x.id as nat)));
    assert(quiet(dec(x.gen as nat)));
    lemma_quiet_sum(dec(x.id as nat), lit(" "));
    lemma_quiet_sum(dec(x.id as nat) + lit(" "), dec(x.gen as nat));
    lemma_quiet_sum(dec(x.id as nat) + lit(" ") + dec(x.gen as nat), lit(" obj\n"));
}

proof fn lemma_two_entries(capacity: nat)
    ensures
        ({
            let e4 = entry_bytes(lit("ByteRange"), lit("[") + nines() + lit("]"));
            let e5 = entry_bytes(lit("Contents"), lit("<") + hex(Seq::new(capacity, |i: int| 0u8)) + lit(">"));
            let t = e4 + e5;
            &&& t.len() == 61 + 2 * capacity
            &&& t.subrange(0, 12) == range_key()
            &&& t.subrange(12, 46) == nines()
            &&& t.subrange(46, 59) == contents_key()
            &&& t[59 + 2 * capacity as int] == 0x3e
        }),
{
    lemma_head_keys();
    lemma_nines();
    reveal_strlit("/ByteRange [");
    reveal_strlit("] /Contents <");
    reveal_strlit("[");
    reveal_strlit("]");
    reveal_strlit("<");
    reveal_strlit(">");
    reveal_strlit(" ");
    lemma_lit("/ByteRange [");
    lemma_lit("] /Contents <");
    lemma_lit("[");
    lemma_lit("]");
    lemma_lit("<");
    lemma_lit(">");
    lemma_lit(" ");
    let z = hex(Seq::new(capacity, |i: int| 0u8));
    assert(z.len() == 2 * capacity);
    assert forall|i: int| 0 <= i < lit("ByteRange").len() implies is_regular(#[trigger] lit("ByteRange")[i]) by {}
    assert forall|i: int| 0 <= i < lit("Contents").len() implies is_regular(#[trigger] lit("Contents")[i]) by {}
    lemma_regular_name(lit("ByteRange"));
    lemma_regular_name(lit("Contents"));
    let e4 = entry_bytes(lit("ByteRange"), lit("[") + nines() + lit("]"));
    let e5 = entry_bytes(lit("Contents"), lit("<") + z + lit(">"));
    let t = e4 + e5;
    assert(e4.len() == 48);
    assert(e4.subrange(0, 12) =~= range_key());
    assert(e4.subrange(12, 46) =~= nines());
    assert(e4[46] == 0x5d && e4[47] == 0x20);
    assert(e5.len() == 13 + 2 * capacity);
    assert(e5.subrange(0, 11) =~= contents_key().skip(2));
    assert(t.subrange(0, 12) =~= e4.subrange(0, 12));
    assert(t.subrange(12, 46) =~= e4.subrange(12, 46));
    assert(t.subrange(46, 59) =~= contents_key()) by {
        assert forall|i: int| 2 <= i < 13 implies t[46 + i] == #[trigger] contents_key()[i] by {
            assert(e5.subrange(0, 11)[i - 2] == contents_key().skip(2)[i - 2]);
        }
    }
    assert(e5[11 + 2 * capacity as int] == 0x3e);
}

/// An object whose bytes hold the front, the two placeholders and more has the
/// placeholders behind its front, and no byte range in front of them.
proof fn lemma_object_placeholders(x: Seq<u8>, front: Seq<u8>, capacity: nat)
    requires
        quiet(front),
        ({
            let t = entry_bytes(lit("ByteRange"), lit("[") + nines() + lit("]")) + entry_bytes(
                lit("Contents"),
                lit("<") + hex(Seq::new(capacity, |i: int| 0u8)) + lit(">"),
            );
            &&& front.len() + t.len() <= x.len()
            &&& x.take(front.len() as int) == front
            &&& x.subrange(front.len() as int, (front.len() + t.len()) as int) == t
        }),
    ensures
        placeholders_at(x, front.len() as int, capacity),
        no_range_between(x, 0, front.len() as int),
{
    lemma_two_entries(capacity);
    lemma_nines();
    let t = entry_bytes(lit("ByteRange"), lit("[") + nines() + lit("]")) + entry_bytes(
        lit("Contents"),
        lit("<") + hex(Seq::new(capacity, |i: int| 0u8)) + lit(">"),
    );
    let p = front.len() as int;
    let y = x.subrange(p, p + t.len());
    assert(x.subrange(p, p + 12) =~= y.subrange(0, 12));
    assert(x.subrange(p + 46, p + 59) =~= y.subrange(46, 59));
    assert(x[p + 59 + 2 * capacity] == y[59 + 2 * capacity as int]);
    assert forall|i: int| p + 12 <= i < p + 46 implies is_range_char(#[trigger] x[i]) by {
        assert(y.subrange(12, 46)[i - p - 12] == x[i]);
    }
    reveal_strlit("/ByteRange");
    lemma_lit("/ByteRange");
    assert forall|j: int| 0 <= j < p implies !#[trigger] occurs_at(x, lit("/ByteRange"), j) by {
        if occurs_at(x, lit("/ByteRange"), j) {
            assert(x.subrange(j, j + 10)[0] == 0x2f && x.subrange(j, j + 10)[1] == 0x42);
            assert(x.take(p)[j] == front[j]);
            assert(front[j] == 0x2f);
            assert(x.take(p)[j + 1] == front[j + 1]);
        }
    }
}

/// The `/SubFilter` entry with the given name stands right in front of index `p`.
pub open spec fn subfilter_stands(u: Seq<u8>, p: int, subfilter: Seq<u8>) -> bool {
    let e = entry_bytes(lit("SubFilter"), name_bytes(subfilter));
    occurs_at(u, e, p - e.len())
}

/// Where the placeholders of a signature dictionary stand in its object.
pub open spec fn range_offset(x: Item, kind: Seq<u8>, subfilter: Seq<u8>) -> int {
    (item_front(x).len() + sig_front(kind, subfilter).len()) as int
}

proof fn lemma_item_placeholders(x: Item, d: Dict, kind: Seq<u8>, subfilter: Seq<u8>, capacity: nat)
    requires
        x.obj == Obj::Dictionary(d),
        begins_as_signature(d, kind, subfilter, capacity),
        plain_name(kind),
        plain_name(subfilter),
    ensures
        placeholders_at(item_bytes(x), range_offset(x, kind, subfilter), capacity),
        no_range_between(item_bytes(x), 0, range_offset(x, kind, subfilter)),
        subfilter_stands(item_bytes(x), range_offset(x, kind, subfilter), subfilter),
{
    lemma_head_written(d, kind, subfilter, capacity);
    lemma_front_is_quiet(kind, subfilter);
    lemma_item_front_is_quiet(x);
    lemma_quiet_sum(item_front(x), sig_front(kind, subfilter));
    let front = item_front(x) + sig_front(kind, subfilter);
    let e4 = entry_bytes(lit("ByteRange"), lit("[") + nines() + lit("]"));
    let e5 = entry_bytes(lit("Contents"), lit("<") + hex(Seq::new(capacity, |i: int| 0u8)) + lit(">"));
    let t = e4 + e5;
    let o = object_bytes(x.obj);
    let head = sig_front(kind, subfilter) + e4 + e5;
    let b = item_bytes(x);
    assert(b == item_front(x) + o + lit("\nendobj\n"));
    let n = item_front(x).len() as int;
    assert(head =~= sig_front(kind, subfilter) + t);
    assert(b.subrange(n, n + head.len()) =~= o.take(head.len() as int));
    assert(b.take(front.len() as int) =~= front) by {
        assert forall|i: int| n <= i < front.len() implies b[i] == #[trigger] front[i] by {
            assert(b.subrange(n, n + head.len())[i - n] == b[i]);
        }
    }
    assert(b.subrange(front.len() as int, (front.len() + t.len()) as int) =~= t) by {
        assert forall|i: int| 0 <= i < t.len() implies b[front.len() + i] == #[trigger] t[i] by {
            assert(b.subrange(n, n + head.len())[front.len() - n + i] == b[front.len() + i]);
        }
    }
    lemma_object_placeholders(b, front, capacity);
    let e3 = entry_bytes(lit("SubFilter"), name_bytes(subfilter));
    let m = front.len() - e3.len();
    assert(b.subrange(m, m + e3.len()) =~= e3) by {
        assert forall|i: int| 0 <= i < e3.len() implies b[m + i] == #[trigger] e3[i] by {
            assert(b.take(front.len() as int)[m + i] == front[m + i]);
        }
    }
}

// ---------------------------------------------------------------------------
// The update

/// The bytes hold a `/ByteRange` nowhere.
pub open spec fn has_no_range(s: Seq<u8>) -> bool {
    forall|i: int| !#[trigger] occurs_at(s, lit("/ByteRange"), i)
}

/// Where an object of an update begins.
pub open spec fn item_offset(base: Seq<u8>, s: Seq<Item>, k: int) -> int {
    (with_line_end(base).len() + items_bytes(s.take(k)).len()) as int
}

proof fn lemma_no_range_in_objects(u: Seq<u8>, base: Seq<u8>, s: Seq<Item>, k: int)
    requires
        0 <= k <= s.len(),
        u.len() >= with_line_end(base).len(),
        u.take(with_line_end(base).len() as int) == with_line_end(base),
        forall|i: int| 0 <= i < k ==> occurs_at(u, #[trigger] item_bytes(s[i]), item_offset(base, s, i)),
        forall|i: int| 0 <= i < k ==> has_no_range(#[trigger] item_bytes(s[i])),
    ensures
        no_range_between(u, base.len() as int, item_offset(base, s, k)),
    decreases k,
{
    if k == 0 {
        assert(items_bytes(s.take(0)) =~= Seq::empty());
        lemma_no_range_in_line_end(u, base);
    } else {
        lemma_no_range_in_objects(u, base, s, k - 1);
        let x = item_bytes(s[k - 1]);
        let off = item_offset(base, s, k - 1);
        assert(s.take(k).drop_last() =~= s.take(k - 1));
        assert(item_offset(base, s, k) == off + x.len());
        assert(occurs_at(u, x, off));
        assert(has_no_range(x));
        lemma_item_ends(s[k - 1]);
        lemma_no_range_in_one(u, x, base.len() as int, off);
    }
}

proof fn lemma_no_range_in_line_end(u: Seq<u8>, base: Seq<u8>)
    requires
        u.len() >= with_line_end(base).len(),
        u.take(with_line_end(base).len() as int) == with_line_end(base),
    ensures
        no_range_between(u, base.len() as int, with_line_end(base).len() as int),
{
    reveal_strlit("/ByteRange");
    lemma_lit("/ByteRange");
    let needle = lit("/ByteRange");
    let w = with_line_end(base);
    assert forall|j: int| base.len() <= j < w.len() implies !#[trigger] occurs_at(u, needle, j) by {
        if occurs_at(u, needle, j) {
            assert(u.subrange(j, j + 10)[0] == 0x2f);
            assert(u.take(w.len() as int)[j] == u[j]);
        }
    }
}

proof fn lemma_item_ends(x: Item)
    ensures
        item_bytes(x).len() > 0,
        item_bytes(x).last() == 0x0a,
{
    reveal_strlit("\nendobj\n");
    lemma_lit("\nendobj\n");
}

proof fn lemma_no_range_in_one(u: Seq<u8>, x: Seq<u8>, start: int, off: int)
    requires
        occurs_at(u, x, off),
        has_no_range(x),
        x.len() > 0,
        x.last() == 0x0a,
        no_range_between(u, start, off),
    ensures
        no_range_between(u, start, (off + x.len()) as int),
{
    reveal_strlit("/ByteRange");
    lemma_lit("/ByteRange");
    let needle = lit("/ByteRange");
    assert(needle =~= seq![0x2fu8, 0x42u8, 0x79u8, 0x74u8, 0x65u8, 0x52u8, 0x61u8, 0x6eu8, 0x67u8, 0x65u8]);
    let y = u.subrange(off, off + x.len());
    assert forall|j: int| start <= j < off + x.len() implies !#[trigger] occurs_at(u, needle, j) by {
        if j >= off && occurs_at(u, needle, j) {
            if j + 10 <= off + x.len() {
                assert(x.subrange(j - off, j - off + 10) =~= u.subrange(j, j + 10));
                assert(occurs_at(x, needle, j - off));
            } else {
                let e = off + x.len() - 1;
                assert(y[e - off] == x[e - off]);
                assert(u[e] == 0x0a);
                assert(u.subrange(j, j + 10)[e - j] == needle[e - j]);
            }
        }
    }
}

/// The placeholders of a signature dictionary in an update are the ones that are found
/// behind the original: its object holds them, and nothing in front of them begins a
/// byte range, as far as no other object in front of it holds one.
pub proof fn law_update_has_placeholders(
    base: Seq<u8>,
    s: Seq<Item>,
    size: u32,
    root: ObjectId,
    prev: nat,
    id: Option<Obj>,
    k: int,
    d: Dict,
    kind: Seq<u8>,
    subfilter: Seq<u8>,
    capacity: nat,
)
    requires
        0 <= k < s.len(),
        s[k].obj == Obj::Dictionary(d),
        begins_as_signature(d, kind, subfilter, capacity),
        plain_name(kind),
        plain_name(subfilter),
        forall|i: int| 0 <= i < k ==> has_no_range(#[trigger] item_bytes(s[i])),
    ensures
        ({
            let u = updated(base, s, size, root, prev, id);
            let p = item_offset(base, s, k) + range_offset(s[k], kind, subfilter);
            base.len() <= p && placeholders_at(u, p, capacity) && no_range_between(u, base.len() as int, p)
                && subfilter_stands(u, p, subfilter)
        }),
{
    let u = updated(base, s, size, root, prev, id);
    assert forall|i: int| 0 <= i <= k implies occurs_at(u, #[trigger] item_bytes(s[i]), item_offset(base, s, i)) by {
        law_update_offsets(base, s, size, root, prev, id, i);
    }
    lemma_update_begins(base, s, size, root, prev, id);
    lemma_item_placeholders(s[k], d, kind, subfilter, capacity);
    lemma_no_range_in_objects(u, base, s, k);
    lemma_placeholders_in(
        u,
        item_bytes(s[k]),
        base.len() as int,
        item_offset(base, s, k),
        range_offset(s[k], kind, subfilter),
        capacity,
        subfilter,
    );
}

proof fn lemma_update_begins(base: Seq<u8>, s: Seq<Item>, size: u32, root: ObjectId, prev: nat, id: Option<Obj>)
    ensures
        ({
            let u = updated(base, s, size, root, prev, id);
            let w = with_line_end(base);
            w.len() <= u.len() && u.take(w.len() as int) == w
        }),
{
    let u = updated(base, s, size, root, prev, id);
    let w = with_line_end(base);
    assert(u.take(w.len() as int) =~= w);
}

proof fn lemma_placeholders_in(
    u: Seq<u8>,
    x: Seq<u8>,
    start: int,
    off: int,
    r: int,
    capacity: nat,
    subfilter: Seq<u8>,
)
    requires
        occurs_at(u, x, off),
        placeholders_at(x, r, capacity),
        subfilter_stands(x, r, subfilter),
        no_range_between(x, 0, r),
        no_range_between(u, start, off),
    ensures
        placeholders_at(u, off + r, capacity),
        no_range_between(u, start, off + r),
        subfilter_stands(u, off + r, subfilter),
{
    lemma_inside(u, x, off, r, capacity);
    let e = entry_bytes(lit("SubFilter"), name_bytes(subfilter));
    assert(u.subrange(off + r - e.len(), off + r) =~= x.subrange(r - e.len(), r)) by {
        assert forall|i: int| 0 <= i < x.len() implies u[off + i] == #[trigger] x[i] by {
            assert(u.subrange(off, off + x.len())[i] == x[i]);
        }
    }
    reveal_strlit("/ByteRange");
    lemma_lit("/ByteRange");
    let y = u.subrange(off, off + x.len());
    assert forall|j: int| start <= j < off + r implies !#[trigger] occurs_at(u, lit("/ByteRange"), j) by {
        if j >= off && occurs_at(u, lit("/ByteRange"), j) {
            assert(x.subrange(j - off, j - off + 10) =~= u.subrange(j, j + 10));
            assert(occurs_at(x, lit("/ByteRange"), j - off));
        }
    }
}

proof fn lemma_inside(u: Seq<u8>, x: Seq<u8>, off: int, r: int, capacity: nat)
    requires
        occurs_at(u, x, off),
        placeholders_at(x, r, capacity),
    ensures
        placeholders_at(u, off + r, capacity),
{
    let y = u.subrange(off, off + x.len());
    let p = off + r;
    assert(u.subrange(p, p + 12) =~= x.subrange(r, r + 12));
    assert(u.subrange(p + 46, p + 59) =~= x.subrange(r + 46, r + 59));
    assert forall|i: int| p + 12 <= i < p + 46 implies is_range_char(#[trigger] u[i]) by {
        assert(u[i] == x[i - off]);
    }
    assert(y[r + 59 + 2 * capacity] == u[p + 59 + 2 * capacity]);
}

// ---------------------------------------------------------------------------
// The signature's object among the others

/// The signature that an object holds, where it is a signature dictionary.
pub open spec fn sig_of(o: Obj) -> Option<SigView> {
    match o {
        Obj::Dictionary(d) => signature_in(d),
        _ => None,
    }
}

/// None of the objects of the document is a mere reference to another.
pub open spec fn direct(doc: Doc) -> bool {
    forall|i: int| 0 <= i < doc.objects.len() ==> !((#[trigger] doc.objects[i]).1 is Reference)
}

/// An item that changes no signature: a new object that is no signature dictionary, or an
/// object of the document written anew, with the signature that it held, as far as the
/// objects of the document are direct.
pub open spec fn harmless(doc: Doc, y: Item) -> bool {
    if y.id > doc.max_id {
        sig_of(y.obj) is None
    } else {
        match lookup(doc.objects, (y.id, y.gen)) {
            Some(o) => direct(doc) ==> sig_of(y.obj) == sig_of(o),
            None => false,
        }
    }
}

/// The items are in order, `x` is one of them, and the others change no signature.
pub open spec fn keeps(doc: Doc, s: Seq<Item>, x: Item) -> bool {
    &&& ordered(s)
    &&& s.contains(x)
    &&& forall|i: int| 0 <= i < s.len() ==> #[trigger] s[i] == x || harmless(doc, s[i])
}

/// Adding an item that changes no signature.
pub proof fn lemma_add_keeps(doc: Doc, s: Seq<Item>, y: Item, x: Item)
    requires
        keeps(doc, s, x),
        y.id != x.id,
        harmless(doc, y),
    ensures
        keeps(doc, insert_item(s, y), x),
{
    law_insert_item(s, y);
    let t = insert_item(s, y);
    let at = choose|k: int| 0 <= k < t.len() && t[k] == y;
    assert forall|i: int| 0 <= i < t.len() implies #[trigger] t[i] == x || harmless(doc, t[i]) by {
        if t[i].id == y.id {
            if i < at {
                assert(t[i].id < t[at].id);
            } else if at < i {
                assert(t[at].id < t[i].id);
            }
        } else {
            assert(t.contains(t[i]));
            assert(s.contains(t[i]));
        }
    }
}

/// A dictionary without a byte range.
spec fn rangeless(d: Dict) -> bool {
    lookup(d, lit("ByteRange")) is None
}

proof fn lemma_rangeless_put(d: Dict, key: Seq<u8>, v: Obj)
    requires
        rangeless(d),
        key.len() != 9 || key[0] != 0x42,
    ensures
        rangeless(put(d, key, v)),
{
    lemma_head_keys();
    law_put_lookup(d, key, v, lit("ByteRange"));
}

proof fn lemma_rangeless_empty()
    ensures
        rangeless(Seq::<(Seq<u8>, Obj)>::empty()),
{
    lemma_key_index(Seq::<(Seq<u8>, Obj)>::empty(), lit("ByteRange"), 0);
}

proof fn lemma_helvetica_rangeless()
    ensures
        sig_of(helvetica_obj()) is None,
{
    lemma_rangeless_empty();
    reveal_strlit("Type");
    lemma_lit("Type");
    reveal_strlit("Subtype");
    lemma_lit("Subtype");
    reveal_strlit("BaseFont");
    lemma_lit("BaseFont");
    reveal_strlit("Encoding");
    lemma_lit("Encoding");
    let d0 = Seq::<(Seq<u8>, Obj)>::empty();
    let v1 = Obj::Name(lit("Font"));
    lemma_rangeless_put(d0, lit("Type"), v1);
    let d1 = put(d0, lit("Type"), v1);
    let v2 = Obj::Name(lit("Type1"));
    lemma_rangeless_put(d1, lit("Subtype"), v2);
    let d2 = put(d1, lit("Subtype"), v2);
    let v3 = Obj::Name(lit("Helvetica"));
    lemma_rangeless_put(d2, lit("BaseFont"), v3);
    let d3 = put(d2, lit("BaseFont"), v3);
    let v4 = Obj::Name(lit("WinAnsiEncoding"));
    lemma_rangeless_put(d3, lit("Encoding"), v4);
    let d4 = put(d3, lit("Encoding"), v4);
    assert(helvetica_obj() == Obj::Dictionary(d4));
}

proof fn lemma_font_rangeless(font: Seq<u8>, upem: u16, id: ObjectId)
    ensures
        sig_of(font_obj(font, upem, id)) is None,
{
    lemma_rangeless_empty();
    reveal_strlit("Type");
    lemma_lit("Type");
    reveal_strlit("Subtype");
    lemma_lit("Subtype");
    reveal_strlit("BaseFont");
    lemma_lit("BaseFont");
    reveal_strlit("FirstChar");
    lemma_lit("FirstChar");
    reveal_strlit("LastChar");
    lemma_lit("LastChar");
    reveal_strlit("Widths");
    lemma_lit("Widths");
    reveal_strlit("Encoding");
    lemma_lit("Encoding");
    reveal_strlit("FontDescriptor");
    lemma_lit("FontDescriptor");
    let d0 = Seq::<(Seq<u8>, Obj)>::empty();
    let v1 = Obj::Name(lit("Font"));
    lemma_rangeless_put(d0, lit("Type"), v1);
    let d1 = put(d0, lit("Type"), v1);
    let v2 = Obj::Name(lit("TrueType"));
    lemma_rangeless_put(d1, lit("Subtype"), v2);
    let d2 = put(d1, lit("Subtype"), v2);
    let v3 = Obj::Name(lit("EmbeddedFont"));
    lemma_rangeless_put(d2, lit("BaseFont"), v3);
    let d3 = put(d2, lit("BaseFont"), v3);
    let v4 = Obj::Integer(32);
    lemma_rangeless_put(d3, lit("FirstChar"), v4);
    let d4 = put(d3, lit("FirstChar"), v4);
    let v5 = Obj::Integer(255);
    lemma_rangeless_put(d4, lit("LastChar"), v5);
    let d5 = put(d4, lit("LastChar"), v5);
    let v6 = Obj::Array(widths_of(font, upem));
    lemma_rangeless_put(d5, lit("Widths"), v6);
    let d6 = put(d5, lit("Widths"), v6);
    let v7 = Obj::Name(lit("WinAnsiEncoding"));
    lemma_rangeless_put(d6, lit("Encoding"), v7);
    let d7 = put(d6, lit("Encoding"), v7);
    let v8 = Obj::Reference(id);
    lemma_rangeless_put(d7, lit("FontDescriptor"), v8);
    let d8 = put(d7, lit("FontDescriptor"), v8);
    assert(font_obj(font, upem, id) == Obj::Dictionary(d8));
}

proof fn lemma_descriptor_rangeless(h: FontHeaderView, id: ObjectId)
    ensures
        sig_of(descriptor_obj(h, id)) is None,
{
    lemma_rangeless_empty();
    let upem = h.units_per_em as nat;
    let cap = match h.capital_height {
        Some(c) => c,
        None => h.ascender,
    };
    reveal_strlit("Type");
    lemma_lit("Type");
    reveal_strlit("FontName");
    lemma_lit("FontName");
    reveal_strlit("Flags");
    lemma_lit("Flags");
    reveal_strlit("FontBBox");
    lemma_lit("FontBBox");
    reveal_strlit("ItalicAngle");
    lemma_lit("ItalicAngle");
    reveal_strlit("Ascent");
    lemma_lit("Ascent");
    reveal_strlit("Descent");
    lemma_lit("Descent");
    reveal_strlit("CapHeight");
    lemma_lit("CapHeight");
    reveal_strlit("StemV");
    lemma_lit("StemV");
    reveal_strlit("FontFile2");
    lemma_lit("FontFile2");
    let d0 = Seq::<(Seq<u8>, Obj)>::empty();
    let v1 = Obj::Name(lit("FontDescriptor"));
    lemma_rangeless_put(d0, lit("Type"), v1);
    let d1 = put(d0, lit("Type"), v1);
    let v2 = Obj::Name(lit("EmbeddedFont"));
    lemma_rangeless_put(d1, lit("FontName"), v2);
    let d2 = put(d1, lit("FontName"), v2);
    let v3 = Obj::Integer(if h.italic_bits % 0x8000_0000 != 0 { 96 } else { 32 });
    lemma_rangeless_put(d2, lit("Flags"), v3);
    let d3 = put(d2, lit("Flags"), v3);
    let v4 = Obj::Array(
        seq![
            Obj::Integer(scaled(h.x_min as int, upem) as i64),
            Obj::Integer(scaled(h.y_min as int, upem) as i64),
            Obj::Integer(scaled(h.x_max as int, upem) as i64),
            Obj::Integer(scaled(h.y_max as int, upem) as i64),
        ],
    );
    lemma_rangeless_put(d3, lit("FontBBox"), v4);
    let d4 = put(d3, lit("FontBBox"), v4);
    let v5 = Obj::Real(h.italic_bits, h.italic_text);
    lemma_rangeless_put(d4, lit("ItalicAngle"), v5);
    let d5 = put(d4, lit("ItalicAngle"), v5);
    let v6 = Obj::Integer(scaled(h.ascender as int, upem) as i64);
    lemma_rangeless_put(d5, lit("Ascent"), v6);
    let d6 = put(d5, lit("Ascent"), v6);
    let v7 = Obj::Integer(scaled(h.descender as int, upem) as i64);
    lemma_rangeless_put(d6, lit("Descent"), v7);
    let d7 = put(d6, lit("Descent"), v7);
    let v8 = Obj::Integer(scaled(cap as int, upem) as i64);
    lemma_rangeless_put(d7, lit("CapHeight"), v8);
    let d8 = put(d7, lit("CapHeight"), v8);
    let v9 = Obj::Integer(80);
    lemma_rangeless_put(d8, lit("StemV"), v9);
    let d9 = put(d8, lit("StemV"), v9);
    let v10 = Obj::Reference(id);
    lemma_rangeless_put(d9, lit("FontFile2"), v10);
    let d10 = put(d9, lit("FontFile2"), v10);
    assert(descriptor_obj(h, id) == Obj::Dictionary(d10));
}

/// A widget is no signature.
pub proof fn lemma_widget_rangeless(app: Option<Appearance>, sig_id: ObjectId, form: Option<ObjectId>)
    ensures
        sig_of(widget(app, sig_id, form)) is None,
{
    lemma_rangeless_empty();
    reveal_strlit("Type");
    lemma_lit("Type");
    reveal_strlit("Subtype");
    lemma_lit("Subtype");
    reveal_strlit("FT");
    lemma_lit("FT");
    reveal_strlit("T");
    lemma_lit("T");
    reveal_strlit("F");
    lemma_lit("F");
    reveal_strlit("V");
    lemma_lit("V");
    reveal_strlit("Rect");
    lemma_lit("Rect");
    reveal_strlit("AP");
    lemma_lit("AP");
    let d0 = Seq::<(Seq<u8>, Obj)>::empty();
    let v1 = Obj::Name(lit("Annot"));
    lemma_rangeless_put(d0, lit("Type"), v1);
    let d1 = put(d0, lit("Type"), v1);
    let v2 = Obj::Name(lit("Widget"));
    lemma_rangeless_put(d1, lit("Subtype"), v2);
    let d2 = put(d1, lit("Subtype"), v2);
    let v3 = Obj::Name(lit("Sig"));
    lemma_rangeless_put(d2, lit("FT"), v3);
    let d3 = put(d2, lit("FT"), v3);
    let v4 = Obj::String(lit("Signature") + dec(sig_id.0 as nat), StringFormat::Literal);
    lemma_rangeless_put(d3, lit("T"), v4);
    let d4 = put(d3, lit("T"), v4);
    let v5 = Obj::Integer(132);
    lemma_rangeless_put(d4, lit("F"), v5);
    let d5 = put(d4, lit("F"), v5);
    let v6 = Obj::Reference(sig_id);
    lemma_rangeless_put(d5, lit("V"), v6);
    let d6 = put(d5, lit("V"), v6);
    match (app, form) {
        (Some(a), Some(id)) => {
            let n = Obj::Dictionary(put(Seq::<(Seq<u8>, Obj)>::empty(), lit("N"), Obj::Reference(id)));
            lemma_rangeless_put(d6, lit("Rect"), rect_of(a));
            let d7 = put(d6, lit("Rect"), rect_of(a));
            lemma_rangeless_put(d7, lit("AP"), n);
            assert(widget(app, sig_id, form) == Obj::Dictionary(put(d7, lit("AP"), n)));
        },
        _ => {
            let v = Obj::Array(seq![zero_real(), zero_real(), zero_real(), zero_real()]);
            lemma_rangeless_put(d6, lit("Rect"), v);
            assert(widget(app, sig_id, form) == Obj::Dictionary(put(d6, lit("Rect"), v)));
        },
    }
}

proof fn lemma_font_keeps(doc: Doc, s: Seq<Item>, n: int, font: Option<Vec<u8>>, x: Item)
    requires
        keeps(doc, s, x),
        doc.max_id < x.id < n,
    ensures
        font_added(s, n, font) matches Ok((s1, n1)) ==> n <= n1 && (n1 <= u32::MAX ==> keeps(doc, s1, x)),
{
    match font {
        None => {
            if n + 1 <= u32::MAX {
                lemma_helvetica_rangeless();
                lemma_add_keeps(doc, s, (Item { id: n as u32, gen: 0, obj: helvetica_obj() }), x);
            }
        },
        Some(f) => {
            if let Ok(h) = font_header(f@) {
                if n + 3 <= u32::MAX {
                    let a = Item { id: n as u32, gen: 0, obj: font_obj(f@, h.units_per_em, fresh(n + 1)) };
                    let b = Item { id: (n + 1) as u32, gen: 0, obj: descriptor_obj(h, fresh(n + 2)) };
                    let c = Item { id: (n + 2) as u32, gen: 0, obj: fontfile_obj(f@) };
                    lemma_font_rangeless(f@, h.units_per_em, fresh(n + 1));
                    lemma_descriptor_rangeless(h, fresh(n + 2));
                    lemma_add_keeps(doc, s, a, x);
                    lemma_add_keeps(doc, insert_item(s, a), b, x);
                    lemma_add_keeps(doc, insert_item(insert_item(s, a), b), c, x);
                }
            }
        },
    }
}

proof fn lemma_image_keeps(doc: Doc, s: Seq<Item>, n: int, image: Option<Vec<u8>>, x: Item)
    requires
        keeps(doc, s, x),
        doc.max_id < x.id < n,
    ensures
        image_added(s, n, image) matches Ok((s1, n1, _)) ==> n <= n1 && (n1 <= u32::MAX ==> keeps(doc, s1, x)),
{
    if let Some(b) = image {
        if let Ok(img) = image_of(b@) {
            match img.smask {
                Some(m) => {
                    let a = Item {
                        id: n as u32,
                        gen: 0,
                        obj: image_obj(img.width, img.height, "DeviceGray"@, "FlateDecode"@, m, None),
                    };
                    let c = Item {
                        id: (n + 1) as u32,
                        gen: 0,
                        obj: image_obj(
                            img.width,
                            img.height,
                            img.color_space,
                            img.filter,
                            img.data,
                            Some(fresh(n)),
                        ),
                    };
                    if n + 2 <= u32::MAX {
                        lemma_add_keeps(doc, s, a, x);
                        lemma_add_keeps(doc, insert_item(s, a), c, x);
                    }
                },
                None => {
                    let a = Item {
                        id: n as u32,
                        gen: 0,
                        obj: image_obj(img.width, img.height, img.color_space, img.filter, img.data, None),
                    };
                    if n + 1 <= u32::MAX {
                        lemma_add_keeps(doc, s, a, x);
                    }
                },
            }
        }
    }
}

/// The objects of an appearance change no signature.
pub proof fn lemma_form_keeps(doc: Doc, s: Seq<Item>, n: int, app: Option<Appearance>, x: Item)
    requires
        keeps(doc, s, x),
        doc.max_id < x.id < n,
    ensures
        form_items(s, n, app) matches Ok((s1, n1, _)) ==> n <= n1 && (n1 <= u32::MAX ==> keeps(doc, s1, x)),
{
    if let Some(a) = app {
        lemma_font_keeps(doc, s, n, a.font, x);
        if let Ok((s1, n1)) = font_added(s, n, a.font) {
            if n1 <= u32::MAX {
                lemma_image_keeps(doc, s1, n1, a.image, x);
            } else {
                lemma_image_numbers(s1, n1, a.image);
            }
            if let Ok((s2, n2, img)) = image_added(s1, n1, a.image) {
                if n2 + 1 <= u32::MAX {
                    lemma_add_keeps(doc, s2, (Item { id: n2 as u32, gen: 0, obj: form_obj(a, n, img) }), x);
                }
            }
        }
    }
}

proof fn lemma_image_numbers(s: Seq<Item>, n: int, image: Option<Vec<u8>>)
    ensures
        image_added(s, n, image) matches Ok((s1, n1, _)) ==> n <= n1,
{
}

/// The objects of the document have numbers up to its largest.
pub open spec fn numbered(doc: Doc) -> bool {
    forall|i: int| 0 <= i < doc.objects.len() ==> (#[trigger] doc.objects[i]).0.0 <= doc.max_id
}

/// An object that is found has a number up to the largest.
pub proof fn lemma_numbered(doc: Doc, id: ObjectId)
    requires
        numbered(doc),
        object_at(doc, id) is Ok,
    ensures
        id.0 <= doc.max_id,
        lookup(doc.objects, id) is Some,
        direct(doc) ==> object_at(doc, id) == Ok::<Obj, ErrorView>(lookup(doc.objects, id)->0),
{
    lemma_key_index(doc.objects, id, 0);
}

proof fn lemma_object_keeps(doc: Doc, s: Seq<Item>, id: ObjectId, o: Obj, x: Item)
    requires
        numbered(doc),
        object_at(doc, id) matches Ok(was) && sig_of(was) == sig_of(o),
        keeps(doc, s, x),
        x.id > doc.max_id,
    ensures
        keeps(doc, add_object(s, id, o), x),
{
    lemma_numbered(doc, id);
    lemma_add_keeps(doc, s, (Item { id: id.0, gen: id.1, obj: o }), x);
}

/// Entries other than those of a signature change no signature.
pub proof fn lemma_same_signature(d: Dict, key: Seq<u8>, v: Obj)
    requires
        key == lit("Annots") || key == lit("SigFlags") || key == lit("AcroForm") || key == lit("Fields") || key == lit(
            "DSS",
        ),
    ensures
        signature_in(put(d, key, v)) == signature_in(d),
{
    lemma_head_keys();
    reveal_strlit("Annots");
    reveal_strlit("SigFlags");
    reveal_strlit("AcroForm");
    reveal_strlit("Fields");
    lemma_lit("Annots");
    lemma_lit("SigFlags");
    lemma_lit("AcroForm");
    lemma_lit("Fields");
    reveal_strlit("DSS");
    lemma_lit("DSS");
    assert(lit("SigFlags")[0] == 0x53 && lit("AcroForm")[0] == 0x41 && lit("Contents")[0] == 0x43);
    law_put_lookup(d, key, v, lit("Contents"));
    law_put_lookup(d, key, v, lit("ByteRange"));
    law_put_lookup(d, key, v, lit("SubFilter"));
}

/// The widget on its page changes no signature.
pub proof fn lemma_widget_keeps(doc: Doc, s: Seq<Item>, page: ObjectId, widget_id: ObjectId, x: Item)
    requires
        numbered(doc),
        keeps(doc, s, x),
        x.id > doc.max_id,
    ensures
        widget_on_page(doc, s, page, widget_id) matches Ok(s1) ==> keeps(doc, s1, x),
{
    if let Ok(d) = dict_at(doc, page) {
        match lookup(d, lit("Annots")) {
            Some(Obj::Reference(r)) => {
                if let Ok(a) = array_at(doc, r) {
                    lemma_object_keeps(doc, s, r, with_reference(a, widget_id), x);
                }
            },
            Some(Obj::Array(a)) => {
                let v = with_reference(a, widget_id);
                lemma_same_signature(d, lit("Annots"), v);
                lemma_object_keeps(doc, s, page, Obj::Dictionary(put(d, lit("Annots"), v)), x);
            },
            _ => {
                let v = with_reference(Seq::empty(), widget_id);
                lemma_same_signature(d, lit("Annots"), v);
                lemma_object_keeps(doc, s, page, Obj::Dictionary(put(d, lit("Annots"), v)), x);
            },
        }
    }
}

proof fn lemma_field_in_form_keeps(doc: Doc, s: Seq<Item>, form: Dict, widget_id: ObjectId, x: Item)
    requires
        numbered(doc),
        keeps(doc, s, x),
        x.id > doc.max_id,
    ensures
        field_in_form(doc, s, form, widget_id) matches Ok((s1, f)) ==> keeps(doc, s1, x) && signature_in(f)
            == signature_in(form),
{
    match lookup(form, lit("Fields")) {
        Some(Obj::Reference(r)) => {
            if let Ok(a) = array_at(doc, r) {
                lemma_object_keeps(doc, s, r, with_reference(a, widget_id), x);
            }
        },
        Some(Obj::Array(a)) => {
            lemma_same_signature(form, lit("Fields"), with_reference(a, widget_id));
        },
        _ => {
            lemma_same_signature(form, lit("Fields"), with_reference(Seq::empty(), widget_id));
        },
    }
}

proof fn lemma_catalog_keeps(doc: Doc, s: Seq<Item>, root: ObjectId, catalog: Dict, form: Obj, x: Item)
    requires
        numbered(doc),
        keeps(doc, s, x),
        x.id > doc.max_id,
        dict_at(doc, root) == Ok::<Dict, ErrorView>(catalog),
    ensures
        keeps(doc, add_object(s, root, Obj::Dictionary(put(catalog, lit("AcroForm"), form))), x),
{
    lemma_same_signature(catalog, lit("AcroForm"), form);
    lemma_object_keeps(doc, s, root, Obj::Dictionary(put(catalog, lit("AcroForm"), form)), x);
}

/// The field in the form changes no signature.
pub proof fn lemma_field_keeps(doc: Doc, s: Seq<Item>, root: ObjectId, widget_id: ObjectId, x: Item)
    requires
        numbered(doc),
        keeps(doc, s, x),
        x.id > doc.max_id,
    ensures
        field_registered(doc, s, root, widget_id) matches Ok(s1) ==> keeps(doc, s1, x),
{
    if let Ok(s2) = field_registered(doc, s, root, widget_id) {
        let catalog = dict_at(doc, root)->Ok_0;
        match lookup(catalog, lit("AcroForm")) {
            Some(Obj::Reference(af)) => {
                let form = dict_at(doc, af)->Ok_0;
                lemma_field_in_form_keeps(doc, s, form, widget_id, x);
                let (s1, f) = field_in_form(doc, s, form, widget_id)->Ok_0;
                lemma_same_signature(f, lit("SigFlags"), Obj::Integer(3));
                lemma_object_keeps(doc, s1, af, Obj::Dictionary(put(f, lit("SigFlags"), Obj::Integer(3))), x);
            },
            Some(Obj::Dictionary(form)) => {
                lemma_field_in_form_keeps(doc, s, form, widget_id, x);
                let (s1, f) = field_in_form(doc, s, form, widget_id)->Ok_0;
                let v = Obj::Dictionary(put(f, lit("SigFlags"), Obj::Integer(3)));
                lemma_catalog_keeps(doc, s1, root, catalog, v, x);
            },
            _ => {
                let v = Obj::Dictionary(
                    put(
                        put(
                            Seq::<(Seq<u8>, Obj)>::empty(),
                            lit("Fields"),
                            with_reference(Seq::empty(), widget_id),
                        ),
                        lit("SigFlags"),
                        Obj::Integer(3),
                    ),
                );
                lemma_catalog_keeps(doc, s, root, catalog, v, x);
            },
        }
    }
}

// ---------------------------------------------------------------------------
// Updates are ready for signing

/// A file has placeholders of the capacity behind its first `start` bytes, with the
/// subfilter right in front of them and no byte range between.
pub open spec fn ready(u: Seq<u8>, start: int, capacity: nat, subfilter: Seq<u8>) -> bool {
    exists|p: int|
        start <= p && #[trigger] placeholders_at(u, p, capacity) && no_range_between(u, start, p) && subfilter_stands(
            u,
            p,
            subfilter,
        )
}

/// None of the objects of the document that an update writes anew holds the text
/// `/ByteRange`.
pub open spec fn rewrites_no_range(doc: Doc, s: Seq<Item>) -> bool {
    forall|i: int| 0 <= i < s.len() && (#[trigger] s[i]).id <= doc.max_id ==> has_no_range(item_bytes(s[i]))
}

proof fn lemma_put_later(d: Dict, key: Seq<u8>, v: Obj, kind: Seq<u8>, subfilter: Seq<u8>, capacity: nat)
    requires
        begins_as_signature(d, kind, subfilter, capacity),
        key != lit("Type"),
        key != lit("Filter"),
        key != lit("SubFilter"),
        key != lit("ByteRange"),
        key != lit("Contents"),
    ensures
        begins_as_signature(put(d, key, v), kind, subfilter, capacity),
{
    lemma_head(kind, subfilter, capacity);
    lemma_key_index(d, key, 0);
    let h = d.take(5);
    assert(h[0] == d[0] && h[1] == d[1] && h[2] == d[2] && h[3] == d[3] && h[4] == d[4]);
    assert(put(d, key, v).take(5) =~= h);
}

proof fn lemma_later_keys(key: Seq<u8>)
    requires
        key == lit("Reason") || key == lit("Name") || key == lit("Location") || key == lit("ContactInfo") || key == lit(
            "M",
        ),
    ensures
        key != lit("Type"),
        key != lit("Filter"),
        key != lit("SubFilter"),
        key != lit("ByteRange"),
        key != lit("Contents"),
{
    lemma_head_keys();
    reveal_strlit("Reason");
    reveal_strlit("Name");
    reveal_strlit("Location");
    reveal_strlit("ContactInfo");
    reveal_strlit("M");
    lemma_lit("Reason");
    lemma_lit("Name");
    lemma_lit("Location");
    lemma_lit("ContactInfo");
    lemma_lit("M");
    assert(lit("Reason")[0] == 0x52 && lit("Name")[0] == 0x4e && lit("Location")[0] == 0x4c);
    assert(lit("Contents")[0] == 0x43);
}

proof fn lemma_text_later(
    d: Dict,
    key: Seq<u8>,
    text: Option<String>,
    kind: Seq<u8>,
    subfilter: Seq<u8>,
    capacity: nat,
)
    requires
        begins_as_signature(d, kind, subfilter, capacity),
        key == lit("Reason") || key == lit("Name") || key == lit("Location") || key == lit("ContactInfo") || key == lit(
            "M",
        ),
    ensures
        begins_as_signature(put_text(d, key, text), kind, subfilter, capacity),
{
    lemma_later_keys(key);
    if let Some(t) = text {
        lemma_put_later(d, key, literal(t@), kind, subfilter, capacity);
    }
}

/// A signature dictionary begins with those entries.
pub proof fn lemma_sig_dict_begins(opts: SignOptions)
    ensures
        sig_dict(opts) is Dictionary,
        begins_as_signature(
            sig_dict(opts)->Dictionary_0,
            lit("Sig"),
            lit("ETSI.CAdES.detached"),
            opts.signature_capacity as nat,
        ),
{
    let (kind, sub, capacity) = (lit("Sig"), lit("ETSI.CAdES.detached"), opts.signature_capacity as nat);
    let d0 = sig_head(kind, sub, capacity);
    lemma_head(kind, sub, capacity);
    assert(d0.take(5) =~= d0);
    let d1 = put_text(d0, lit("Reason"), opts.reason);
    lemma_text_later(d0, lit("Reason"), opts.reason, kind, sub, capacity);
    let d2 = put_text(d1, lit("Name"), opts.name);
    lemma_text_later(d1, lit("Name"), opts.name, kind, sub, capacity);
    let d3 = put_text(d2, lit("Location"), opts.location);
    lemma_text_later(d2, lit("Location"), opts.location, kind, sub, capacity);
    let d4 = put_text(d3, lit("ContactInfo"), opts.contact_info);
    lemma_text_later(d3, lit("ContactInfo"), opts.contact_info, kind, sub, capacity);
    lemma_text_later(d4, lit("M"), opts.signing_time, kind, sub, capacity);
}

proof fn lemma_ready(
    pdf: Seq<u8>,
    doc: Doc,
    s: Seq<Item>,
    size: int,
    root: ObjectId,
    x: Item,
    d: Dict,
    kind: Seq<u8>,
    subfilter: Seq<u8>,
    capacity: nat,
)
    requires
        keeps(doc, s, x),
        x.id == doc.max_id + 1,
        x.obj == Obj::Dictionary(d),
        begins_as_signature(d, kind, subfilter, capacity),
        plain_name(kind),
        plain_name(subfilter),
        rewrites_no_range(doc, s),
    ensures
        appended(pdf, doc, s, size, root) matches Ok(u) ==> ready(u, pdf.len() as int, capacity, subfilter),
{
    if let Ok(u) = appended(pdf, doc, s, size, root) {
        let k = choose|k: int| 0 <= k < s.len() && s[k] == x;
        assert forall|i: int| 0 <= i < k implies has_no_range(#[trigger] item_bytes(s[i])) by {
            assert(s[i].id < s[k].id);
        }
        let prev = startxref(pdf)->0;
        let id = lookup(doc.trailer, lit("ID"));
        law_update_has_placeholders(
            pdf,
            s,
            size as u32,
            root,
            prev,
            id,
            k,
            d,
            kind,
            subfilter,
            capacity,
        );
        let p = item_offset(pdf, s, k) + range_offset(s[k], kind, subfilter);
        assert(placeholders_at(u, p, capacity));
    }
}

/// The item of the signature dictionary.
pub open spec fn sig_item(doc: Doc, opts: SignOptions) -> Item {
    Item { id: (doc.max_id + 1) as u32, gen: 0, obj: sig_dict(opts) }
}

/// The items of an update for a signature: the signature dictionary under the number
/// above the largest of the document, and objects that change no signature.
pub proof fn law_signature_items(doc: Doc, opts: SignOptions)
    requires
        numbered(doc),
    ensures
        signature_items(doc, opts) matches Ok((s, size, _)) ==> doc.max_id + 1 < size && (size <= u32::MAX ==> keeps(
            doc,
            s,
            sig_item(doc, opts),
        )),
{
    reveal(signature_items);
    if let Ok((s, size, root)) = signature_items(doc, opts) {
        let sig = doc.max_id + 1;
        let x = sig_item(doc, opts);
        let s0 = add_fresh(Seq::empty(), sig, sig_dict(opts));
        law_insert_item(Seq::<Item>::empty(), x);
        assert(s0 =~= seq![x]);
        let (s1, n, form) = form_items(s0, sig + 1, opts.appearance)->Ok_0;
        lemma_form_numbers(s0, sig + 1, opts.appearance);
        if size <= u32::MAX {
            lemma_form_keeps(doc, s0, sig + 1, opts.appearance, x);
            let y = Item { id: n as u32, gen: 0, obj: widget(opts.appearance, fresh(sig), form) };
            lemma_widget_rangeless(opts.appearance, fresh(sig), form);
            lemma_add_keeps(doc, s1, y, x);
            let s2 = insert_item(s1, y);
            let page = page_of(
                doc,
                match opts.appearance {
                    Some(a) => a.page,
                    None => 1,
                },
            )->Ok_0;
            lemma_widget_keeps(doc, s2, page, fresh(n), x);
            let s3 = widget_on_page(doc, s2, page, fresh(n))->Ok_0;
            lemma_field_keeps(doc, s3, root, fresh(n), x);
        }
    }
}

/// The objects of an appearance take numbers from the given one on.
pub proof fn lemma_form_numbers(s: Seq<Item>, n: int, app: Option<Appearance>)
    ensures
        form_items(s, n, app) matches Ok((s1, n1, _)) ==> n <= n1,
{
    if let Some(a) = app {
        if let Ok((s1, n1)) = font_added(s, n, a.font) {
            lemma_image_numbers(s1, n1, a.image);
        }
    }
}

/// The update for a signature is ready for signing: behind the original, the first byte
/// range is the one of the signature dictionary, and its contents have the capacity,
/// as far as no object of the document that is written anew holds a byte range itself.
pub proof fn law_signature_update_is_ready(pdf: Seq<u8>, doc: Doc, opts: SignOptions)
    requires
        numbered(doc),
        signature_items(doc, opts) matches Ok((s, _, _)) ==> rewrites_no_range(doc, s),
    ensures
        signature_update(pdf, doc, opts) matches Ok(u) ==> ready(
            u,
            pdf.len() as int,
            opts.signature_capacity as nat,
            lit("ETSI.CAdES.detached"),
        ),
{
    if signature_update(pdf, doc, opts) is Ok {
        let (s, size, root) = signature_items(doc, opts)->Ok_0;
        law_signature_items(doc, opts);
        lemma_sig_dict_begins(opts);
        lemma_signature_names_are_plain();
        lemma_ready(
            pdf,
            doc,
            s,
            size,
            root,
            sig_item(doc, opts),
            sig_dict(opts)->Dictionary_0,
            lit("Sig"),
            lit("ETSI.CAdES.detached"),
            opts.signature_capacity as nat,
        );
    }
}

/// The item of the dictionary of a document timestamp.
pub open spec fn stamp_item(doc: Doc, capacity: nat) -> Item {
    Item { id: (doc.max_id + 1) as u32, gen: 0, obj: doctimestamp_dict(capacity) }
}

/// The items of an update for a document timestamp: its dictionary under the number above
/// the largest of the document, and objects that change no signature.
pub proof fn law_timestamp_items(doc: Doc, capacity: nat)
    requires
        numbered(doc),
    ensures
        timestamp_items(doc, capacity) matches Ok((s, size, _)) ==> size == doc.max_id + 3 && (size <= u32::MAX ==> keeps(
            doc,
            s,
            stamp_item(doc, capacity),
        )),
{
    reveal(timestamp_items);
    if let Ok((s, size, root)) = timestamp_items(doc, capacity) {
        if size <= u32::MAX {
            let ts = doc.max_id + 1;
            let x = stamp_item(doc, capacity);
            let y = Item { id: (ts + 1) as u32, gen: 0, obj: widget(None, fresh(ts), None) };
            let s0 = add_fresh(Seq::empty(), ts, doctimestamp_dict(capacity));
            law_insert_item(Seq::<Item>::empty(), x);
            assert(s0 =~= seq![x]);
            lemma_widget_rangeless(None, fresh(ts), None);
            lemma_add_keeps(doc, s0, y, x);
            let s2 = insert_item(s0, y);
            let page = page_of(doc, 1)->Ok_0;
            lemma_widget_keeps(doc, s2, page, fresh(ts + 1), x);
            let s3 = widget_on_page(doc, s2, page, fresh(ts + 1))->Ok_0;
            lemma_field_keeps(doc, s3, root, fresh(ts + 1), x);
        }
    }
}

/// The update for a document timestamp is ready for its token in the same way.
pub proof fn law_timestamp_update_is_ready(pdf: Seq<u8>, doc: Doc, capacity: nat)
    requires
        numbered(doc),
        timestamp_items(doc, capacity) matches Ok((s, _, _)) ==> rewrites_no_range(doc, s),
    ensures
        timestamp_update(pdf, doc, capacity) matches Ok(u) ==> ready(
            u,
            pdf.len() as int,
            capacity,
            lit("ETSI.RFC3161"),
        ),
{
    if timestamp_update(pdf, doc, capacity) is Ok {
        let (s, size, root) = timestamp_items(doc, capacity)->Ok_0;
        law_timestamp_items(doc, capacity);
        let (kind, sub) = (lit("DocTimeStamp"), lit("ETSI.RFC3161"));
        let d = sig_head(kind, sub, capacity);
        lemma_head(kind, sub, capacity);
        assert(d.take(5) =~= d);
        lemma_timestamp_names_are_plain();
        lemma_ready(pdf, doc, s, size, root, stamp_item(doc, capacity), d, kind, sub, capacity);
    }
}

} // verus!
