//! The validation material that is embedded is the one that is read back.
use vstd::prelude::*;

use crate::appearance::fresh;
use crate::document::{dict_at, loaded, object_at, root_of, stream_data, Doc};
use crate::dss::{
    der_stream_obj, dss_appended, dss_dict, dss_items, dss_of, dss_streams, extracted, material_added,
    material_size, put_references, references, streams_added, streams_of, MaterialView,
};
use crate::error::ErrorView;
use crate::incremental::{insert_item, law_insert_item, ordered, Item};
use crate::object::{law_put_lookup, lemma_key_index, lookup, put, Dict, Obj, ObjectId};
use crate::update_laws::{lemma_numbered, numbered};
use crate::util::{lemma_lit, lit};

verus! {

/// A document holds the objects of an update, under their numbers.
pub open spec fn holds_items(doc: Doc, s: Seq<Item>) -> bool {
    forall|i: int| 0 <= i < s.len() ==> lookup(doc.objects, ((#[trigger] s[i]).id, s[i].gen)) == Some(s[i].obj)
}

/// The item of a stream.
spec fn stream_item(n: int, der: Seq<u8>) -> Item {
    Item { id: n as u32, gen: 0, obj: der_stream_obj(der) }
}

/// The items hold a stream for each blob, from object number `n` on.
spec fn has_streams(s: Seq<Item>, n: int, ders: Seq<Seq<u8>>) -> bool {
    forall|i: int| 0 <= i < ders.len() ==> s.contains(#[trigger] stream_item(n + i, ders[i]))
}

proof fn lemma_streams_added(s: Seq<Item>, n: int, ders: Seq<Seq<u8>>)
    requires
        ordered(s),
        0 <= n,
        n + ders.len() <= u32::MAX,
    ensures
        ordered(streams_added(s, n, ders)),
        has_streams(streams_added(s, n, ders), n, ders),
        forall|y: Item| s.contains(y) && y.id < n ==> #[trigger] streams_added(s, n, ders).contains(y),
    decreases ders.len(),
{
    if ders.len() > 0 {
        let t = ders.drop_last();
        lemma_streams_added(s, n, t);
        let r = streams_added(s, n, t);
        let m = n + ders.len() - 1;
        let x = stream_item(m, ders.last());
        law_insert_item(r, x);
        let all = streams_added(s, n, ders);
        assert(all == insert_item(r, x));
        assert forall|i: int| 0 <= i < ders.len() implies all.contains(#[trigger] stream_item(n + i, ders[i])) by {
            if i < t.len() {
                assert(r.contains(stream_item(n + i, t[i])));
            }
        }
        assert forall|y: Item| s.contains(y) && y.id < n implies #[trigger] all.contains(y) by {
            assert(r.contains(y));
        }
    }
}

proof fn lemma_material_added(n: int, m: MaterialView)
    requires
        0 <= n,
        n + material_size(m) <= u32::MAX,
    ensures
        ordered(material_added(n, m)),
        has_streams(material_added(n, m), n, m.certs),
        has_streams(material_added(n, m), n + m.certs.len(), m.crls),
        has_streams(material_added(n, m), n + m.certs.len() + m.crls.len(), m.ocsps),
{
    let n1 = n + m.certs.len();
    let n2 = n1 + m.crls.len();
    let s0 = Seq::<Item>::empty();
    lemma_streams_added(s0, n, m.certs);
    let s1 = streams_added(s0, n, m.certs);
    lemma_streams_added(s1, n1, m.crls);
    let s2 = streams_added(s1, n1, m.crls);
    lemma_streams_added(s2, n2, m.ocsps);
    let s3 = streams_added(s2, n2, m.ocsps);
    assert forall|i: int| 0 <= i < m.certs.len() implies s3.contains(#[trigger] stream_item(n + i, m.certs[i])) by {
        assert(s1.contains(stream_item(n + i, m.certs[i])));
        assert(s2.contains(stream_item(n + i, m.certs[i])));
    }
    assert forall|i: int| 0 <= i < m.crls.len() implies s3.contains(#[trigger] stream_item(n1 + i, m.crls[i])) by {
        assert(s2.contains(stream_item(n1 + i, m.crls[i])));
    }
}

/// A list of references to streams gives what the streams hold.
proof fn lemma_streams_read(doc: Doc, s: Seq<Item>, n: int, ders: Seq<Seq<u8>>)
    requires
        holds_items(doc, s),
        has_streams(s, n, ders),
        0 <= n,
        n + ders.len() <= u32::MAX,
    ensures
        streams_of(doc, references(n, ders.len())) == ders,
    decreases ders.len(),
{
    let a = references(n, ders.len());
    if ders.len() > 0 {
        let t = ders.drop_last();
        assert forall|i: int| 0 <= i < t.len() implies s.contains(#[trigger] stream_item(n + i, t[i])) by {
            assert(s.contains(stream_item(n + i, ders[i])));
        }
        lemma_streams_read(doc, s, n, t);
        assert(a.drop_last() =~= references(n, t.len()));
        let m = n + ders.len() - 1;
        let x = stream_item(m, ders.last());
        assert(s.contains(stream_item(n + (ders.len() - 1), ders[ders.len() - 1])));
        let i = choose|i: int| 0 <= i < s.len() && s[i] == x;
        assert(lookup(doc.objects, (s[i].id, s[i].gen)) == Some(s[i].obj));
        assert(object_at(doc, fresh(m)) == Ok::<Obj, ErrorView>(x.obj));
        lemma_no_filter(ders.last());
        assert(streams_of(doc, a) =~= ders);
    } else {
        assert(a =~= Seq::empty());
        assert(streams_of(doc, a) =~= ders);
    }
}

proof fn lemma_no_filter(der: Seq<u8>)
    ensures
        der_stream_obj(der) matches Obj::Stream(d, c) && stream_data(d, c) == der,
{
    reveal_strlit("Length");
    reveal_strlit("Filter");
    lemma_lit("Length");
    lemma_lit("Filter");
    assert(lit("Length")[0] == 0x4c && lit("Filter")[0] == 0x46);
    if let Obj::Stream(d, c) = der_stream_obj(der) {
        lemma_key_index(Seq::<(Seq<u8>, Obj)>::empty(), lit("Length"), 0);
        lemma_key_index(d, lit("Filter"), 0);
    }
}

/// The validation material that is embedded is the one that is read back: a document
/// that holds the objects of the update under its catalog gives the certificates, the
/// CRLs and the OCSP responses, each in their order.
pub proof fn law_material_reads_back(doc: Doc, m: MaterialView, after: Doc)
    requires
        numbered(doc),
        dss_items(doc, m) matches Ok((s, _, root)) && holds_items(after, s) && root_of(after) == Ok::<
            ObjectId,
            ErrorView,
        >(root),
    ensures
        dss_streams(after, lit("Certs")) == m.certs,
        dss_streams(after, lit("CRLs")) == m.crls,
        dss_streams(after, lit("OCSPs")) == m.ocsps,
{
    let (s, size, root) = dss_items(doc, m)->Ok_0;
    let n = doc.max_id + 1;
    let n1 = n + m.certs.len();
    let n2 = n1 + m.crls.len();
    let catalog = dict_at(doc, root)->Ok_0;
    let dss = dss_dict(n, m);
    let d = put(catalog, lit("DSS"), Obj::Dictionary(dss));
    let x = Item { id: root.0, gen: root.1, obj: Obj::Dictionary(d) };
    lemma_numbered(doc, root);
    lemma_material_added(n, m);
    let s0 = material_added(n, m);
    law_insert_item(s0, x);
    assert(s == insert_item(s0, x));
    lemma_kept(s0, x, n, m.certs);
    lemma_kept(s0, x, n1, m.crls);
    lemma_kept(s0, x, n2, m.ocsps);
    // The catalog.
    let i = choose|i: int| 0 <= i < s.len() && s[i] == x;
    assert(lookup(after.objects, (s[i].id, s[i].gen)) == Some(s[i].obj));
    assert(dict_at(after, root) == Ok::<Dict, ErrorView>(d));
    law_put_lookup(catalog, lit("DSS"), Obj::Dictionary(dss), lit("DSS"));
    assert(dss_of(after) == Some(dss));
    lemma_dss_entries(n, m);
    lemma_streams_read(after, s, n, m.certs);
    lemma_streams_read(after, s, n1, m.crls);
    lemma_streams_read(after, s, n2, m.ocsps);
}

/// Embedding material changes nothing in the catalog but its `/DSS`.
pub proof fn law_material_keeps_the_catalog(doc: Doc, m: MaterialView, key: Seq<u8>)
    requires
        numbered(doc),
        key != lit("DSS"),
    ensures
        dss_items(doc, m) matches Ok((s, _, root)) ==> exists|with: Dict|
            {
                &&& #[trigger] s.contains(Item { id: root.0, gen: root.1, obj: Obj::Dictionary(with) })
                &&& lookup(with, key) == lookup(dict_at(doc, root)->Ok_0, key)
                &&& lookup(with, lit("DSS")) matches Some(Obj::Dictionary(_))
            },
{
    if let Ok((s, _, root)) = dss_items(doc, m) {
        let n = doc.max_id + 1;
        let catalog = dict_at(doc, root)->Ok_0;
        let dss = Obj::Dictionary(dss_dict(n, m));
        let with = put(catalog, lit("DSS"), dss);
        lemma_material_added(n, m);
        law_insert_item(material_added(n, m), (Item { id: root.0, gen: root.1, obj: Obj::Dictionary(with) }));
        law_put_lookup(catalog, lit("DSS"), dss, key);
        assert(s.contains(Item { id: root.0, gen: root.1, obj: Obj::Dictionary(with) }));
    }
}

proof fn lemma_kept(s: Seq<Item>, x: Item, n: int, ders: Seq<Seq<u8>>)
    requires
        ordered(s),
        has_streams(s, n, ders),
        x.id < n,
        n + ders.len() <= u32::MAX,
    ensures
        has_streams(insert_item(s, x), n, ders),
{
    law_insert_item(s, x);
    let t = insert_item(s, x);
    assert forall|i: int| 0 <= i < ders.len() implies t.contains(#[trigger] stream_item(n + i, ders[i])) by {
        assert(s.contains(stream_item(n + i, ders[i])));
    }
}

/// What stands under the keys of the `/DSS` dictionary.
proof fn lemma_dss_entries(n: int, m: MaterialView)
    ensures
        ({
            let d = dss_dict(n, m);
            let n1 = n + m.certs.len();
            let n2 = n1 + m.crls.len();
            &&& listed(lookup(d, lit("Certs")), n, m.certs.len())
            &&& listed(lookup(d, lit("CRLs")), n1, m.crls.len())
            &&& listed(lookup(d, lit("OCSPs")), n2, m.ocsps.len())
        }),
{
    reveal_strlit("Certs");
    reveal_strlit("CRLs");
    reveal_strlit("OCSPs");
    lemma_lit("Certs");
    lemma_lit("CRLs");
    lemma_lit("OCSPs");
    assert(lit("Certs").len() == 5 && lit("CRLs").len() == 4 && lit("OCSPs").len() == 5);
    assert(lit("Certs")[0] == 0x43 && lit("OCSPs")[0] == 0x4f);
    let n1 = n + m.certs.len();
    let n2 = n1 + m.crls.len();
    let d0 = Seq::<(Seq<u8>, Obj)>::empty();
    let d1 = put_references(d0, lit("Certs"), n, m.certs.len());
    let d2 = put_references(d1, lit("CRLs"), n1, m.crls.len());
    lemma_key_index(d0, lit("Certs"), 0);
    lemma_key_index(d0, lit("CRLs"), 0);
    lemma_key_index(d0, lit("OCSPs"), 0);
    let a = Obj::Array(references(n, m.certs.len()));
    let b = Obj::Array(references(n1, m.crls.len()));
    let c = Obj::Array(references(n2, m.ocsps.len()));
    law_put_lookup(d0, lit("Certs"), a, lit("CRLs"));
    law_put_lookup(d0, lit("Certs"), a, lit("OCSPs"));
    law_put_lookup(d1, lit("CRLs"), b, lit("Certs"));
    law_put_lookup(d1, lit("CRLs"), b, lit("OCSPs"));
    law_put_lookup(d2, lit("OCSPs"), c, lit("Certs"));
    law_put_lookup(d2, lit("OCSPs"), c, lit("CRLs"));
}

/// An entry of the `/DSS` dictionary: the references, or nothing where there are none.
spec fn listed(entry: Option<Obj>, n: int, k: nat) -> bool {
    if k == 0 {
        entry is None
    } else {
        entry == Some(Obj::Array(references(n, k)))
    }
}

/// An updated file parses to a document that holds the objects of the update, under the
/// catalog that the update names.
pub open spec fn parses_with_material(pdf: Seq<u8>, m: MaterialView, out: Seq<u8>) -> bool {
    match (loaded(pdf), loaded(out)) {
        (Ok(doc), Ok(after)) => match dss_items(doc, m) {
            Ok((s, _, root)) => holds_items(after, s) && root_of(after) == Ok::<ObjectId, ErrorView>(root),
            Err(_) => false,
        },
        _ => false,
    }
}

/// What is embedded in a document is what is extracted from it: the CRLs and the OCSP
/// responses come back, the same and in their order, whatever `/DSS` the document had
/// before. The updated file must parse to a document that holds the objects of the update.
pub proof fn law_embedded_material_is_extracted(pdf: Seq<u8>, m: MaterialView, out: Seq<u8>)
    requires
        dss_appended(pdf, m) == Ok::<Seq<u8>, ErrorView>(out),
        numbered(loaded(pdf)->Ok_0),
        parses_with_material(pdf, m, out),
    ensures
        extracted(out, lit("Certs")) == m.certs,
        extracted(out, lit("CRLs")) == m.crls,
        extracted(out, lit("OCSPs")) == m.ocsps,
{
    law_material_reads_back(loaded(pdf)->Ok_0, m, loaded(out)->Ok_0);
}

/// From bytes that do not parse as a document nothing is extracted.
pub proof fn law_nothing_is_extracted_from_other_bytes(pdf: Seq<u8>, key: Seq<u8>)
    requires
        loaded(pdf) is Err,
    ensures
        extracted(pdf, key) == Seq::<Seq<u8>>::empty(),
{
}

} // verus!
