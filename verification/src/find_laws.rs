//! What is found in a document: which dictionaries are signatures, and what an object
//! number leads to.
use vstd::prelude::*;

use crate::document::{array_at, dict_at, followed, loaded, object_at, root_of, stream_data, Doc};
use crate::error::ErrorView;
use crate::filters::{coding_of, decodable, decoded, names_in};
use crate::locate::{
    contents_offset, holds_signature, in_file_order, law_file_order, signature_in, signatures_among, signatures_of, SigView,
};
use crate::object::{lookup, Dict, Obj, ObjectId};
use crate::util::lit;

verus! {

// ---------------------------------------------------------------------------
// Signatures

/// A dictionary is a signature exactly if it has contents, a string, and a byte range of
/// four integers. It is a timestamp exactly if its subfilter says so.
pub proof fn law_signature_dictionary(d: Dict)
    ensures
        signature_in(d) is Some <==> (lookup(d, lit("Contents")) matches Some(Obj::String(_, _))) && (lookup(
            d,
            lit("ByteRange"),
        ) matches Some(Obj::Array(a)) && a.len() == 4 && a[0] is Integer && a[1] is Integer && a[2] is Integer
            && a[3] is Integer),
        signature_in(d) matches Some(s) ==> {
            &&& s.byte_range.len() == 4
            &&& lookup(d, lit("ByteRange")) matches Some(Obj::Array(a)) && forall|i: int|
                0 <= i < 4 ==> #[trigger] a[i] == Obj::Integer(s.byte_range[i])
            &&& lookup(d, lit("Contents")) matches Some(Obj::String(c, _)) && c == s.contents
            &&& s.is_timestamp <==> (lookup(d, lit("SubFilter")) matches Some(Obj::Name(n)) && n == lit("ETSI.RFC3161"))
        },
{
    if let Some(Obj::Array(a)) = lookup(d, lit("ByteRange")) {
        if a.len() == 4 && a[0] is Integer && a[1] is Integer && a[2] is Integer && a[3] is Integer {
            assert forall|i: int| 0 <= i < 4 implies (#[trigger] a[i]) is Integer by {
                assert(i == 0 || i == 1 || i == 2 || i == 3);
            }
        }
        if forall|i: int| 0 <= i < 4 ==> (#[trigger] a[i]) is Integer {
            assert(a[0] is Integer && a[1] is Integer && a[2] is Integer && a[3] is Integer);
        }
    }
}

proof fn lemma_among_back(objects: Seq<(ObjectId, Obj)>, s: SigView) -> (i: int)
    requires
        signatures_among(objects).contains(s),
    ensures
        0 <= i < objects.len(),
        objects[i].1 is Dictionary,
        signature_in(objects[i].1->Dictionary_0) == Some(s),
    decreases objects.len(),
{
    let all = signatures_among(objects);
    let k = choose|k: int| 0 <= k < all.len() && all[k] == s;
    if objects.len() == 0 {
        0
    } else {
        let t = objects.drop_last();
        let r = signatures_among(t);
        if k < r.len() {
            assert(r[k] == s);
            lemma_among_back(t, s)
        } else {
            objects.len() - 1
        }
    }
}

/// In a document that parses, what is found is exactly what its objects hold, in the order
/// in which the contents stand in the file.
pub proof fn law_found_signatures(pdf: Seq<u8>, doc: Doc, s: SigView)
    requires
        loaded(pdf) == Ok::<Doc, ErrorView>(doc),
    ensures
        signatures_of(pdf).contains(s) <==> holds_signature(doc, s),
        forall|i: int, j: int|
            0 <= i < j < signatures_of(pdf).len() ==> (#[trigger] signatures_of(pdf)[i]).byte_range[0]
                + signatures_of(pdf)[i].byte_range[1] <= (#[trigger] signatures_of(pdf)[j]).byte_range[0]
                + signatures_of(pdf)[j].byte_range[1],
{
    broadcast use vstd::seq_lib::group_to_multiset_ensures;

    let r = signatures_among(doc.objects);
    law_file_order(r);
    if signatures_of(pdf).contains(s) {
        assert(in_file_order(r).to_multiset().count(s) > 0);
        assert(r.to_multiset().count(s) > 0);
        assert(r.contains(s));
        let i = lemma_among_back(doc.objects, s);
        assert(doc.objects[i].1 is Dictionary);
    }
    if holds_signature(doc, s) {
        crate::locate::law_signatures_are_found(pdf, s);
    }
    assert forall|i: int, j: int| 0 <= i < j < signatures_of(pdf).len() implies (#[trigger] signatures_of(
        pdf,
    )[i]).byte_range[0] + signatures_of(pdf)[i].byte_range[1] <= (#[trigger] signatures_of(pdf)[j]).byte_range[0]
        + signatures_of(pdf)[j].byte_range[1] by {
        assert(contents_offset(in_file_order(r)[i]) <= contents_offset(in_file_order(r)[j]));
    }
}

// ---------------------------------------------------------------------------
// Objects

/// The object under a number: itself where it is none that refers to another, otherwise
/// what it refers to, as long as that is none in turn.
pub proof fn law_objects_by_number(doc: Doc, id: ObjectId)
    ensures
        lookup(doc.objects, id) is None ==> object_at(doc, id) is Err,
        lookup(doc.objects, id) matches Some(o) ==> !(o is Reference) ==> object_at(doc, id) == Ok::<Obj, ErrorView>(o),
        lookup(doc.objects, id) matches Some(Obj::Reference(other)) ==> {
            &&& lookup(doc.objects, other) is None ==> object_at(doc, id) is Err
            &&& lookup(doc.objects, other) matches Some(o) ==> !(o is Reference) ==> object_at(doc, id) == Ok::<
                Obj,
                ErrorView,
            >(o)
        },
{
    reveal_with_fuel(followed, 3);
}

/// A dictionary or an array is taken under a number exactly if the number leads to one, and
/// the catalog is what the trailer refers to.
pub proof fn law_objects_by_kind(doc: Doc, id: ObjectId)
    ensures
        forall|d: Dict| #[trigger] dict_at(doc, id) == Ok::<Dict, ErrorView>(d) <==> object_at(doc, id) == Ok::<
            Obj,
            ErrorView,
        >(Obj::Dictionary(d)),
        forall|a: Seq<Obj>| #[trigger] array_at(doc, id) == Ok::<Seq<Obj>, ErrorView>(a) <==> object_at(doc, id) == Ok::<
            Obj,
            ErrorView,
        >(Obj::Array(a)),
        root_of(doc) == Ok::<ObjectId, ErrorView>(id) <==> lookup(doc.trailer, lit("Root")) == Some(Obj::Reference(id)),
{
}

/// The data of a stream: its content where it has no filter, otherwise what the filters
/// give, and the content again where they fail.
pub proof fn law_stream_data(d: Dict, content: Seq<u8>)
    ensures
        lookup(d, lit("Filter")) is None ==> stream_data(d, content) == content,
        coding_of(d) matches Some(c) ==> decodable(c, content) ==> match decoded(c, content) {
            Some(v) => stream_data(d, content) == v,
            None => stream_data(d, content) == content,
        },
        lookup(d, lit("Filter")) matches Some(Obj::Name(n)) ==> coding_of(d) matches Some(c) && c.filters == seq![n],
{
}

/// A parameter of a filter: the integer under its name, or else the default.
pub open spec fn has_parameter(d: Dict, name: Seq<u8>, value: i64, default: i64) -> bool {
    match lookup(d, lit("DecodeParms")) {
        Some(Obj::Dictionary(p)) => match lookup(p, name) {
            Some(Obj::Integer(n)) => value == n,
            _ => value == default,
        },
        _ => value == default,
    }
}

/// How a stream is coded: its filters in their order, and the parameters with their
/// defaults, eight bits to a component and one for everything else.
pub proof fn law_coding_of_streams(d: Dict, i: int)
    ensures
        coding_of(d) matches Some(c) ==> {
            &&& has_parameter(d, lit("Predictor"), c.predictor, 1)
            &&& has_parameter(d, lit("Columns"), c.columns, 1)
            &&& has_parameter(d, lit("Colors"), c.colors, 1)
            &&& has_parameter(d, lit("BitsPerComponent"), c.bits, 8)
            &&& has_parameter(d, lit("EarlyChange"), c.early_change, 1)
            &&& lookup(d, lit("Filter")) matches Some(Obj::Array(a)) ==> c.filters.len() == a.len() && (0 <= i < a.len()
                ==> a[i] == Obj::Name(c.filters[i]))
        },
        lookup(d, lit("Filter")) is None ==> coding_of(d) is None,
{
    if let Some(Obj::Array(a)) = lookup(d, lit("Filter")) {
        lemma_names_in(a, i);
    }
}

proof fn lemma_names_in(a: Seq<Obj>, i: int)
    ensures
        names_in(a) matches Some(v) ==> v.len() == a.len() && (0 <= i < a.len() ==> a[i] == Obj::Name(v[i])),
    decreases a.len(),
{
    if a.len() > 0 {
        lemma_names_in(a.drop_last(), i);
    }
}

} // verus!
