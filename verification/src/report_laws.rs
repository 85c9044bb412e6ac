//! What the reports on a document before and after signing promise: the entries of the
//! prior signatures stay, and one entry for the new signature comes behind them.
use vstd::prelude::*;

use crate::archive_laws::{carried_on, later_updates_parse, law_higher_levels_keep_the_report, lemma_stamp_keeps};
use crate::document::{loaded, Doc};
use crate::error::ErrorView;
use crate::incremental::{law_update_keeps_original, ordered, startxref, Item};
use crate::level_laws::{later_replies, law_every_level_embeds_the_signature, lemma_run_starts, lemma_run_step};
use crate::locate::{
    contents_offset, four_integers, in_file_order, signature_in, signatures_among, signatures_of, SigView,
};
use crate::object::{law_put_lookup, lemma_key_index, lookup, put, Dict, Obj, ObjectId, StringFormat};
use crate::options::{PadesLevel, SignOptions};
use crate::placeholder::{filled, law_fill_keeps_signed_bytes};
use crate::placeholder_laws::range_around;
use crate::roundtrip_laws::{
    law_prior_signature_stays_valid, law_signed_file_reads_back, lemma_lengths, lemma_subfilters_differ, reported_from,
};
use crate::sign::{
    after_signature, embedded_cms, first_reply_keeps, first_signature, first_signature_holds, first_step, job_of, prepared,
    run, to_sign, with_signature, JobView, StepView,
};
use crate::sign_laws::{begins_with, law_padding_is_dropped, padded};
use crate::signed_data::detached_verdict;
use crate::signer::{framed, keystore_of, owned, owner_name};
use crate::trust::StoreView;
use crate::update::{sig_dict, signature_items, signature_update};
use crate::update_laws::{
    begins_as_signature, direct, harmless, keeps, law_signature_items, law_signature_update_is_ready, lemma_head, lemma_head_keys,
    lemma_sig_dict_begins, numbered, ready, rewrites_no_range, sig_item, sig_of,
};
use crate::util::lit;
use crate::verify::{all_verified, reported, signed_part, verified, VerifiedView};

verus! {

// ---------------------------------------------------------------------------
// Reports

proof fn lemma_all_verified(pdf: Seq<u8>, sigs: Seq<SigView>, store: StoreView, now: i64)
    ensures
        (forall|i: int| 0 <= i < sigs.len() ==> verified(pdf, #[trigger] sigs[i], store, now) is Ok) <==> all_verified(
            pdf,
            sigs,
            store,
            now,
        ) is Ok,
        all_verified(pdf, sigs, store, now) matches Ok(v) ==> v.len() == sigs.len() && forall|i: int|
            0 <= i < sigs.len() ==> verified(pdf, #[trigger] sigs[i], store, now) == Ok::<VerifiedView, ErrorView>(
                v[i],
            ),
    decreases sigs.len(),
{
    if sigs.len() > 0 {
        let t = sigs.drop_last();
        lemma_all_verified(pdf, t, store, now);
        assert forall|i: int| 0 <= i < t.len() implies t[i] == #[trigger] sigs[i] by {}
        if all_verified(pdf, sigs, store, now) is Ok {
            assert forall|i: int| 0 <= i < sigs.len() implies verified(pdf, #[trigger] sigs[i], store, now) == Ok::<
                VerifiedView,
                ErrorView,
            >(all_verified(pdf, sigs, store, now)->Ok_0[i]) by {
                if i < t.len() {
                    assert(verified(pdf, t[i], store, now) is Ok);
                }
            }
        }
        if forall|i: int| 0 <= i < sigs.len() ==> verified(pdf, #[trigger] sigs[i], store, now) is Ok {
            assert forall|i: int| 0 <= i < t.len() implies verified(pdf, #[trigger] t[i], store, now) is Ok by {
                assert(verified(pdf, sigs[i], store, now) is Ok);
            }
            assert(verified(pdf, sigs[sigs.len() - 1], store, now) is Ok);
        }
    }
}

/// An entry of a report says of a signature what another entry says, but for the coverage
/// of the whole document and the verdict on the chain, and no longer covers the document.
pub open spec fn still_reported(before: VerifiedView, after: VerifiedView) -> bool {
    &&& after.valid == before.valid
    &&& after.byte_range == before.byte_range
    &&& after.signed_len == before.signed_len
    &&& after.signer == before.signer
    &&& !after.covers_whole_document
}

/// Signing again keeps prior signatures, in file order: where a document is continued and
/// its signatures are still the first ones that are found, the report on the continued
/// document begins with an entry for each of them, which says what the entry in the
/// report on the document said, but that it no longer covers the whole document.
pub proof fn law_prior_entries_stay(pdf: Seq<u8>, file: Seq<u8>, store: StoreView, now: i64, later: i64)
    requires
        begins_with(file, pdf),
        pdf.len() < file.len(),
        reported(pdf, store, now) is Ok,
        reported(file, store, later) is Ok,
        signatures_of(pdf).len() <= signatures_of(file).len(),
        signatures_of(file).take(signatures_of(pdf).len() as int) == signatures_of(pdf),
    ensures
        ({
            let (r0, r1) = (reported(pdf, store, now)->Ok_0, reported(file, store, later)->Ok_0);
            r0.len() <= r1.len() && forall|i: int| 0 <= i < r0.len() ==> still_reported(r0[i], #[trigger] r1[i])
        }),
{
    let (before, after) = (signatures_of(pdf), signatures_of(file));
    lemma_all_verified(pdf, before, store, now);
    lemma_all_verified(file, after, store, later);
    let (r0, r1) = (reported(pdf, store, now)->Ok_0, reported(file, store, later)->Ok_0);
    assert forall|i: int| 0 <= i < r0.len() implies still_reported(r0[i], #[trigger] r1[i]) by {
        let s = before[i];
        assert(after.take(before.len() as int)[i] == after[i]);
        assert(verified(pdf, s, store, now) == Ok::<VerifiedView, ErrorView>(r0[i]));
        assert(verified(file, s, store, later) == Ok::<VerifiedView, ErrorView>(r1[i]));
        law_prior_signature_stays_valid(pdf, file, s, store, now, later);
    }
}

/// The report on a continued document whose signatures are those of the document.
pub proof fn lemma_reported_on(pdf: Seq<u8>, file: Seq<u8>, store: StoreView, before: i64, later: i64)
    requires
        begins_with(file, pdf),
        pdf.len() < file.len(),
        reported(pdf, store, before) is Ok,
        signatures_of(file) == signatures_of(pdf),
    ensures
        match reported(file, store, later) {
            Ok(r1) => {
                let r0 = reported(pdf, store, before)->Ok_0;
                r1.len() == r0.len() && forall|i: int| 0 <= i < r0.len() ==> still_reported(r0[i], #[trigger] r1[i])
            },
            Err(_) => false,
        },
{
    let sigs = signatures_of(pdf);
    lemma_all_verified(pdf, sigs, store, before);
    assert forall|i: int| 0 <= i < sigs.len() implies verified(file, #[trigger] sigs[i], store, later) is Ok by {
        law_prior_signature_stays_valid(pdf, file, sigs[i], store, before, later);
    }
    lemma_all_verified(file, sigs, store, later);
    assert(sigs.take(sigs.len() as int) =~= sigs);
    law_prior_entries_stay(pdf, file, store, before, later);
}

// ---------------------------------------------------------------------------
// The objects of an update

/// The objects of a document with the items of an update: each in the place of the object
/// with its number, or behind the others.
pub open spec fn merged(objects: Seq<(ObjectId, Obj)>, s: Seq<Item>) -> Seq<(ObjectId, Obj)>
    decreases s.len(),
{
    if s.len() == 0 {
        objects
    } else {
        put(merged(objects, s.drop_last()), (s.last().id, s.last().gen), s.last().obj)
    }
}

/// A document is what another one becomes with the items of an update. Further objects,
/// such as a cross-reference stream, may come behind; none of them is a signature.
pub open spec fn reads_as_update(before: Doc, s: Seq<Item>, after: Doc) -> bool {
    let m = merged(before.objects, s);
    &&& m.len() <= after.objects.len()
    &&& after.objects.take(m.len() as int) == m
    &&& signatures_among(after.objects.skip(m.len() as int)) == Seq::<SigView>::empty()
}

/// A signature dictionary with its byte range and its contents written.
pub open spec fn signed_dict(d: Dict, byte_range: Seq<i64>, contents: Seq<u8>) -> Dict {
    put(
        put(d, lit("ByteRange"), Obj::Array(Seq::new(4, |i: int| Obj::Integer(byte_range[i])))),
        lit("Contents"),
        Obj::String(contents, StringFormat::Hexadecimal),
    )
}

/// The item of the signature dictionary with its byte range and its contents written.
pub open spec fn signed_item(doc: Doc, opts: SignOptions, byte_range: Seq<i64>, contents: Seq<u8>) -> Item {
    Item { obj: Obj::Dictionary(signed_dict(sig_dict(opts)->Dictionary_0, byte_range, contents)), ..sig_item(doc, opts) }
}

/// The items with one of them in the place of the item with its number.
pub open spec fn with_item(s: Seq<Item>, x: Item) -> Seq<Item> {
    Seq::new(s.len(), |i: int| if s[i].id == x.id { x } else { s[i] })
}

proof fn lemma_among_push(objects: Seq<(ObjectId, Obj)>, x: (ObjectId, Obj))
    ensures
        signatures_among(objects.push(x)) == (match sig_of(x.1) {
            Some(s) => signatures_among(objects).push(s),
            None => signatures_among(objects),
        }),
{
    assert(objects.push(x).drop_last() =~= objects);
}

proof fn lemma_among_update(objects: Seq<(ObjectId, Obj)>, i: int, x: (ObjectId, Obj))
    requires
        0 <= i < objects.len(),
        sig_of(objects[i].1) == sig_of(x.1),
    ensures
        signatures_among(objects.update(i, x)) == signatures_among(objects),
    decreases objects.len(),
{
    let u = objects.update(i, x);
    let t = objects.drop_last();
    if i < t.len() {
        assert(u.drop_last() =~= t.update(i, x));
        lemma_among_update(t, i, x);
    } else {
        assert(u.drop_last() =~= t);
    }
}

proof fn lemma_among_sum(a: Seq<(ObjectId, Obj)>, b: Seq<(ObjectId, Obj)>)
    ensures
        signatures_among(a + b) == signatures_among(a) + signatures_among(b),
    decreases b.len(),
{
    if b.len() == 0 {
        assert(a + b =~= a);
        assert(signatures_among(a) + signatures_among(b) =~= signatures_among(a));
    } else {
        lemma_among_sum(a, b.drop_last());
        assert((a + b).drop_last() =~= a + b.drop_last());
        assert(signatures_among(a + b) =~= signatures_among(a) + signatures_among(b));
    }
}

/// The items are in order, and all of them but the one at `at` change no signature.
pub open spec fn tame_but(doc: Doc, s: Seq<Item>, at: int) -> bool {
    &&& ordered(s)
    &&& forall|i: int| 0 <= i < s.len() && i != at ==> harmless(doc, #[trigger] s[i])
}

/// The signatures of a document with the first `k` items of an update, where the item at
/// `at`, if there is one, is a new object with the signature `sig`.
proof fn lemma_merged(doc: Doc, s: Seq<Item>, sig: SigView, at: int, k: int)
    requires
        numbered(doc),
        direct(doc),
        tame_but(doc, s, at),
        0 <= at <= s.len(),
        at < s.len() ==> s[at].id > doc.max_id && sig_of(s[at].obj) == Some(sig),
        0 <= k <= s.len(),
    ensures
        signatures_among(merged(doc.objects, s.take(k))) == (if k > at {
            signatures_among(doc.objects).push(sig)
        } else {
            signatures_among(doc.objects)
        }),
        forall|j: int|
            k <= j < s.len() ==> lookup(merged(doc.objects, s.take(k)), ((#[trigger] s[j]).id, s[j].gen)) == lookup(
                doc.objects,
                (s[j].id, s[j].gen),
            ),
    decreases k,
{
    if k == 0 {
        assert(s.take(0) =~= Seq::empty());
    } else {
        lemma_merged(doc, s, sig, at, k - 1);
        assert(s.take(k).drop_last() =~= s.take(k - 1));
        let y = s[k - 1];
        let key = (y.id, y.gen);
        let m = merged(doc.objects, s.take(k - 1));
        assert(merged(doc.objects, s.take(k)) == put(m, key, y.obj));
        assert(lookup(m, key) == lookup(doc.objects, key));
        lemma_key_index(m, key, 0);
        lemma_key_index(doc.objects, key, 0);
        if k - 1 != at {
            assert(harmless(doc, y));
        }
        if y.id > doc.max_id {
            lemma_among_push(m, (key, y.obj));
        } else {
            let i = crate::object::key_index(m, key, 0)->0;
            lemma_among_update(m, i, (key, y.obj));
        }
        assert forall|j: int| k <= j < s.len() implies lookup(
            merged(doc.objects, s.take(k)),
            ((#[trigger] s[j]).id, s[j].gen),
        ) == lookup(doc.objects, (s[j].id, s[j].gen)) by {
            assert(s[k - 1].id < s[j].id);
            law_put_lookup(m, key, y.obj, (s[j].id, s[j].gen));
        }
    }
}

/// The signatures of a document that reads as another one with the items of an update:
/// those of the other one, and behind them that of the item at `at`, if there is one.
pub proof fn lemma_updated_signatures(doc: Doc, after: Doc, s: Seq<Item>, sig: SigView, at: int)
    requires
        numbered(doc),
        direct(doc),
        tame_but(doc, s, at),
        0 <= at <= s.len(),
        at < s.len() ==> s[at].id > doc.max_id && sig_of(s[at].obj) == Some(sig),
        reads_as_update(doc, s, after),
    ensures
        signatures_among(after.objects) == (if at < s.len() {
            signatures_among(doc.objects).push(sig)
        } else {
            signatures_among(doc.objects)
        }),
{
    lemma_merged(doc, s, sig, at, s.len() as int);
    assert(s.take(s.len() as int) =~= s);
    let m = merged(doc.objects, s);
    let rest = after.objects.skip(m.len() as int);
    assert(after.objects =~= m + rest);
    lemma_among_sum(m, rest);
    assert(signatures_among(after.objects) =~= signatures_among(m));
}

proof fn lemma_file_order_push(s: Seq<SigView>, x: SigView)
    requires
        forall|i: int| 0 <= i < in_file_order(s).len() ==> contents_offset(#[trigger] in_file_order(s)[i])
            <= contents_offset(x),
    ensures
        in_file_order(s.push(x)) == in_file_order(s).push(x),
{
    assert(s.push(x).drop_last() =~= s);
    let o = in_file_order(s);
    if o.len() > 0 {
        assert(contents_offset(o[o.len() - 1]) <= contents_offset(x));
    }
}

/// A signature dictionary with its byte range and its contents written is read as the
/// signature that was made.
pub proof fn lemma_signed_dict(
    d: Dict,
    kind: Seq<u8>,
    sub: Seq<u8>,
    capacity: nat,
    byte_range: Seq<i64>,
    contents: Seq<u8>,
)
    requires
        byte_range.len() == 4,
        begins_as_signature(d, kind, sub, capacity),
    ensures
        signature_in(signed_dict(d, byte_range, contents)) == Some(
            SigView { byte_range, contents, is_timestamp: sub == lit("ETSI.RFC3161") },
        ),
{
    lemma_head_keys();
    lemma_head(kind, sub, capacity);
    let h = d.take(5);
    assert(h[0] == d[0] && h[1] == d[1] && h[2] == d[2]);
    lemma_key_index(d, lit("SubFilter"), 0);
    assert(d[2].0 == lit("SubFilter"));
    assert(lookup(d, lit("SubFilter")) == Some(Obj::Name(sub)));
    let a = Seq::new(4, |i: int| Obj::Integer(byte_range[i]));
    let d1 = put(d, lit("ByteRange"), Obj::Array(a));
    let c = Obj::String(contents, StringFormat::Hexadecimal);
    assert(lit("ByteRange")[0] == 0x42 && lit("Contents")[0] == 0x43);
    law_put_lookup(d, lit("ByteRange"), Obj::Array(a), lit("SubFilter"));
    law_put_lookup(d1, lit("Contents"), c, lit("ByteRange"));
    law_put_lookup(d1, lit("Contents"), c, lit("SubFilter"));
    assert(four_integers(a)->0 =~= byte_range);
}

/// The signed dictionary is the signature that was made.
proof fn lemma_signed_item(doc: Doc, opts: SignOptions, byte_range: Seq<i64>, contents: Seq<u8>)
    requires
        byte_range.len() == 4,
    ensures
        sig_of(signed_item(doc, opts, byte_range, contents).obj) == Some(
            SigView { byte_range, contents, is_timestamp: false },
        ),
{
    lemma_sig_dict_begins(opts);
    lemma_subfilters_differ();
    lemma_signed_dict(
        sig_dict(opts)->Dictionary_0,
        lit("Sig"),
        lit("ETSI.CAdES.detached"),
        opts.signature_capacity as nat,
        byte_range,
        contents,
    );
}

/// The items with the signature dictionary written are in order and change no other
/// signature.
proof fn lemma_with_item(doc: Doc, s: Seq<Item>, x: Item, y: Item)
    requires
        keeps(doc, s, x),
        y.id == x.id,
    ensures
        keeps(doc, with_item(s, y), y),
{
    let t = with_item(s, y);
    let at = choose|k: int| 0 <= k < s.len() && s[k] == x;
    assert(t[at] == y);
    assert forall|i: int, j: int| 0 <= i < j < t.len() implies (#[trigger] t[i]).id < (#[trigger] t[j]).id by {
        assert(s[i].id < s[j].id);
    }
    assert forall|i: int| 0 <= i < t.len() implies #[trigger] t[i] == y || harmless(doc, t[i]) by {
        assert(s[i] == x || harmless(doc, s[i]));
    }
}

// ---------------------------------------------------------------------------
// Signing

/// The items of the update that the first step writes, with the signature in its
/// dictionary.
pub open spec fn signed_items(
    pdf: Seq<u8>,
    p12: Seq<u8>,
    password: Seq<char>,
    opts: SignOptions,
    now: u64,
    replies: Seq<Result<Seq<u8>, ErrorView>>,
) -> Seq<Item> {
    let doc = loaded(pdf)->Ok_0;
    let (v, lt, cms) = first_signature(pdf, p12, password, opts, now)->0;
    let capacity = opts.signature_capacity as nat;
    with_item(
        signature_items(doc, opts)->Ok_0.0,
        signed_item(doc, opts, range_around(lt, capacity, v.len() as int), padded(embedded_cms(opts.pades_level, cms, replies)->0, capacity)),
    )
}

/// The file with the signature alone, as a run writes it at any level.
pub open spec fn signed_file(
    pdf: Seq<u8>,
    p12: Seq<u8>,
    password: Seq<char>,
    opts: SignOptions,
    now: u64,
    replies: Seq<Result<Seq<u8>, ErrorView>>,
) -> Seq<u8> {
    let (v, lt, cms) = first_signature(pdf, p12, password, opts, now)->0;
    filled(v, lt, opts.signature_capacity as nat, embedded_cms(opts.pades_level, cms, replies)->0)->Ok_0
}

/// A file parses to the document with the items of the update, the signature in its
/// dictionary.
pub open spec fn parses_as_signed(
    pdf: Seq<u8>,
    p12: Seq<u8>,
    password: Seq<char>,
    opts: SignOptions,
    now: u64,
    replies: Seq<Result<Seq<u8>, ErrorView>>,
    file: Seq<u8>,
) -> bool {
    match (loaded(pdf), loaded(file)) {
        (Ok(doc), Ok(after)) => reads_as_update(doc, signed_items(pdf, p12, password, opts, now, replies), after),
        _ => false,
    }
}

/// A document that can be told apart from an update to it: its objects have numbers up to
/// its largest and are no mere references, and those that the update writes anew hold no
/// byte range.
pub open spec fn plain_document(pdf: Seq<u8>, opts: SignOptions) -> bool {
    match loaded(pdf) {
        Ok(doc) => numbered(doc) && direct(doc) && (signature_items(doc, opts) matches Ok((s, _, _))
            ==> rewrites_no_range(doc, s)),
        Err(_) => false,
    }
}

/// An update with one signature dictionary puts its signature behind those of the
/// document.
pub proof fn lemma_doc_signatures(doc: Doc, after: Doc, s: Seq<Item>, x: Item, y: Item, sig: SigView)
    requires
        numbered(doc),
        direct(doc),
        keeps(doc, s, x),
        y.id == x.id > doc.max_id,
        sig_of(y.obj) == Some(sig),
        reads_as_update(doc, with_item(s, y), after),
        forall|i: int|
            0 <= i < in_file_order(signatures_among(doc.objects)).len() ==> contents_offset(
                #[trigger] in_file_order(signatures_among(doc.objects))[i],
            ) <= contents_offset(sig),
    ensures
        in_file_order(signatures_among(after.objects)) == in_file_order(signatures_among(doc.objects)).push(sig),
{
    lemma_with_item(doc, s, x, y);
    let t = with_item(s, y);
    let at = choose|k: int| 0 <= k < t.len() && t[k] == y;
    assert forall|i: int| 0 <= i < t.len() && i != at implies harmless(doc, #[trigger] t[i]) by {
        if i < at {
            assert(t[i].id < t[at].id);
        } else {
            assert(t[at].id < t[i].id);
        }
        assert(t[i] == y || harmless(doc, t[i]));
    }
    lemma_updated_signatures(doc, after, t, sig, at);
    lemma_file_order_push(signatures_among(doc.objects), sig);
}

/// The signature dictionary of an update that was made is one of its items.
proof fn lemma_items_keep(pdf: Seq<u8>, doc: Doc, opts: SignOptions)
    requires
        numbered(doc),
        signature_update(pdf, doc, opts) is Ok,
    ensures
        signature_items(doc, opts) is Ok,
        keeps(doc, signature_items(doc, opts)->Ok_0.0, sig_item(doc, opts)),
        sig_item(doc, opts).id > doc.max_id,
{
    law_signature_items(doc, opts);
}

/// The signature that is written into the file, as it is read back.
pub open spec fn made_signature(
    pdf: Seq<u8>,
    p12: Seq<u8>,
    password: Seq<char>,
    opts: SignOptions,
    now: u64,
    replies: Seq<Result<Seq<u8>, ErrorView>>,
) -> SigView {
    let (v, lt, cms) = first_signature(pdf, p12, password, opts, now)->0;
    let capacity = opts.signature_capacity as nat;
    SigView {
        byte_range: range_around(lt, capacity, v.len() as int),
        contents: padded(embedded_cms(opts.pades_level, cms, replies)->0, capacity),
        is_timestamp: false,
    }
}

/// Signing puts one signature behind those of the document.
proof fn lemma_signature_added(
    pdf: Seq<u8>,
    p12: Seq<u8>,
    password: Seq<char>,
    opts: SignOptions,
    now: u64,
    replies: Seq<Result<Seq<u8>, ErrorView>>,
    file: Seq<u8>,
)
    requires
        plain_document(pdf, opts),
        first_signature(pdf, p12, password, opts, now) is Some,
        parses_as_signed(pdf, p12, password, opts, now, replies, file),
        forall|i: int|
            0 <= i < signatures_of(pdf).len() ==> contents_offset(#[trigger] signatures_of(pdf)[i]) <= contents_offset(
                made_signature(pdf, p12, password, opts, now, replies),
            ),
    ensures
        signatures_of(file) == signatures_of(pdf).push(made_signature(pdf, p12, password, opts, now, replies)),
{
    let sig = made_signature(pdf, p12, password, opts, now, replies);
    let doc = loaded(pdf)->Ok_0;
    let after = loaded(file)->Ok_0;
    lemma_items_keep(pdf, doc, opts);
    let y = signed_item(doc, opts, sig.byte_range, sig.contents);
    lemma_signed_item(doc, opts, sig.byte_range, sig.contents);
    assert(signatures_of(pdf) == in_file_order(signatures_among(doc.objects)));
    assert forall|i: int| 0 <= i < in_file_order(signatures_among(doc.objects)).len() implies contents_offset(
        #[trigger] in_file_order(signatures_among(doc.objects))[i],
    ) <= contents_offset(sig) by {
        assert(contents_offset(signatures_of(pdf)[i]) <= contents_offset(sig));
    }
    lemma_doc_signatures(doc, after, signature_items(doc, opts)->Ok_0.0, sig_item(doc, opts), y, sig);
}

/// What the report on a signed document says: what the report on the document said, and
/// behind it that the new signature is valid, names the owner of the keystore and covers
/// the file with the signature alone, of the length `size`, but for its own contents. From
/// B-LT on more follows, so that the signature no longer covers the whole document; at the
/// archival level there is an entry for the document timestamp, which does.
pub open spec fn grown_report(
    level: PadesLevel,
    r0: Seq<VerifiedView>,
    r1: Seq<VerifiedView>,
    size: nat,
    owner: Seq<char>,
    capacity: nat,
    without_store: bool,
) -> bool {
    let e = r1[r0.len() as int];
    &&& r1.len() == r0.len() + (if level.rank() < PadesLevel::Blta.rank() {
        1int
    } else {
        2
    })
    &&& forall|i: int| 0 <= i < r0.len() ==> still_reported(r0[i], #[trigger] r1[i])
    &&& e.valid
    &&& e.covers_whole_document == (level.rank() < PadesLevel::Blt.rank())
    &&& e.signer == Some(owner)
    &&& e.byte_range.len() == 4
    &&& e.byte_range[0] == 0
    &&& e.byte_range[2] + e.byte_range[3] == size
    &&& e.signed_len == size - (2 * capacity + 2)
    &&& without_store ==> e.chain_trusted is None
    &&& level.rank() >= PadesLevel::Blta.rank() ==> r1.last().covers_whole_document
}

/// Signing adds one valid signature to the report on a document, at every level, and keeps
/// the entries of the prior ones, in file order; at the archival level the entry of the
/// document timestamp comes behind it. The owner's certificate must belong to the key of
/// the keystore, and each update must parse to the document before it with the objects of
/// the update.
pub proof fn law_signing_grows_the_report(
    pdf: Seq<u8>,
    p12: Seq<u8>,
    password: Seq<char>,
    opts: SignOptions,
    now: u64,
    replies: Seq<Result<Seq<u8>, ErrorView>>,
    file: Seq<u8>,
    store: StoreView,
    before: i64,
    later: i64,
)
    requires
        signed_by_owner(pdf, p12, password, opts, now, replies, file),
        first_signature_holds(pdf, p12, password, opts, now),
        reported(pdf, store, before) is Ok,
    ensures
        reported(file, store, later) is Ok,
        grown_report(
            opts.pades_level,
            reported(pdf, store, before)->Ok_0,
            reported(file, store, later)->Ok_0,
            signed_file(pdf, p12, password, opts, now, replies).len(),
            owner_name(keystore_of(p12, password)->Ok_0->0),
            opts.signature_capacity as nat,
            store.roots.len() == 0,
        ),
{
    let f = signed_file(pdf, p12, password, opts, now, replies);
    let level = opts.pades_level;
    let owner = owner_name(keystore_of(p12, password)->Ok_0->0);
    let capacity = opts.signature_capacity as nat;
    lemma_signed_report(pdf, p12, password, opts, now, replies, file, store, before, later);
    if level.rank() >= PadesLevel::Blt.rank() {
        lemma_carried_report(pdf, p12, password, opts, now, replies, file, store, later);
        let r0 = reported(pdf, store, before)->Ok_0;
        if store.roots.len() == 0 {
            lemma_without_store(file, store, later, r0.len() as int);
        }
        lemma_grown(
            level,
            r0,
            reported(f, store, later)->Ok_0,
            reported(file, store, later)->Ok_0,
            f.len(),
            owner,
            capacity,
            store.roots.len() == 0,
        );
    }
}

/// From B-LT on the report on the file with the signature alone is carried on.
proof fn lemma_carried_report(
    pdf: Seq<u8>,
    p12: Seq<u8>,
    password: Seq<char>,
    opts: SignOptions,
    now: u64,
    replies: Seq<Result<Seq<u8>, ErrorView>>,
    file: Seq<u8>,
    store: StoreView,
    later: i64,
)
    requires
        opts.pades_level.rank() >= PadesLevel::Blt.rank(),
        signed_by_owner(pdf, p12, password, opts, now, replies, file),
        first_signature_holds(pdf, p12, password, opts, now),
        reported(signed_file(pdf, p12, password, opts, now, replies), store, later) is Ok,
    ensures
        reported(file, store, later) is Ok,
        carried_on(
            opts.pades_level,
            reported(signed_file(pdf, p12, password, opts, now, replies), store, later)->Ok_0,
            reported(file, store, later)->Ok_0,
        ),
{
    let f = signed_file(pdf, p12, password, opts, now, replies);
    let (v, lt, cms) = first_signature(pdf, p12, password, opts, now)->0;
    let w = embedded_cms(opts.pades_level, cms, replies)->0;
    let rest = later_replies(opts.pades_level, replies);
    lemma_run_starts(pdf, p12, password, opts, now, replies, file);
    lemma_run_goes_on(job_of(opts), v, lt, w, rest, file);
    law_higher_levels_keep_the_report(job_of(opts), f, w, rest, file, store, later, later);
}

proof fn lemma_run_goes_on(
    job: JobView,
    v: Seq<u8>,
    lt: int,
    w: Seq<u8>,
    rest: Seq<Result<Seq<u8>, ErrorView>>,
    file: Seq<u8>,
)
    requires
        run(with_signature(job, v, lt, w), rest) == StepView::Done(Ok(file)),
    ensures
        filled(v, lt, job.capacity, w) matches Ok(f) && run(after_signature(job, f, w), rest) == StepView::Done(Ok(file)),
{
    lemma_run_step(with_signature(job, v, lt, w), rest);
}

/// Without roots no entry of a report has a verdict on its chain.
proof fn lemma_without_store(file: Seq<u8>, store: StoreView, now: i64, i: int)
    requires
        reported(file, store, now) is Ok,
        store.roots.len() == 0,
        0 <= i < reported(file, store, now)->Ok_0.len(),
    ensures
        reported(file, store, now)->Ok_0[i].chain_trusted is None,
{
    lemma_all_verified(file, signatures_of(file), store, now);
    assert(verified(file, signatures_of(file)[i], store, now) is Ok);
}

/// A report that is carried on from the report on the file with the signature alone.
proof fn lemma_grown(
    level: PadesLevel,
    r0: Seq<VerifiedView>,
    r1: Seq<VerifiedView>,
    r2: Seq<VerifiedView>,
    size: nat,
    owner: Seq<char>,
    capacity: nat,
    without_store: bool,
)
    requires
        level.rank() >= PadesLevel::Blt.rank(),
        grown_report(PadesLevel::Bb, r0, r1, size, owner, capacity, without_store),
        carried_on(level, r1, r2),
        without_store ==> r2[r0.len() as int].chain_trusted is None,
    ensures
        grown_report(level, r0, r2, size, owner, capacity, without_store),
{
    assert forall|i: int| 0 <= i < r0.len() implies still_reported(r0[i], #[trigger] r2[i]) by {
        assert(still_reported(r0[i], r1[i]));
        assert(still_reported(r1[i], r2[i]));
    }
    let n = r0.len() as int;
    assert(still_reported(r1[n], r2[n]));
}

/// The report on the file with the signature alone, which is all of it below B-LT.
proof fn lemma_signed_report(
    pdf: Seq<u8>,
    p12: Seq<u8>,
    password: Seq<char>,
    opts: SignOptions,
    now: u64,
    replies: Seq<Result<Seq<u8>, ErrorView>>,
    file: Seq<u8>,
    store: StoreView,
    before: i64,
    later: i64,
)
    requires
        signed_by_owner(pdf, p12, password, opts, now, replies, file),
        first_signature_holds(pdf, p12, password, opts, now),
        reported(pdf, store, before) is Ok,
    ensures
        ({
            let f = signed_file(pdf, p12, password, opts, now, replies);
            &&& opts.pades_level.rank() < PadesLevel::Blt.rank() ==> file == f
            &&& reported(f, store, later) is Ok
            &&& grown_report(
                PadesLevel::Bb,
                reported(pdf, store, before)->Ok_0,
                reported(f, store, later)->Ok_0,
                f.len(),
                owner_name(keystore_of(p12, password)->Ok_0->0),
                opts.signature_capacity as nat,
                store.roots.len() == 0,
            )
        }),
{
    let f = signed_file(pdf, p12, password, opts, now, replies);
    let sig = made_signature(pdf, p12, password, opts, now, replies);
    lemma_made_signature(pdf, p12, password, opts, now, replies, file, store, later);
    lemma_offsets_inside(pdf, store, before);
    lemma_signature_added(pdf, p12, password, opts, now, replies, f);
    reveal(reported_valid);
    lemma_report_grows(pdf, f, sig, store, before, later);
}

/// The signatures of a document with a report have their contents inside it.
pub proof fn lemma_offsets_inside(pdf: Seq<u8>, store: StoreView, now: i64)
    requires
        reported(pdf, store, now) is Ok,
    ensures
        forall|i: int| 0 <= i < signatures_of(pdf).len() ==> contents_offset(#[trigger] signatures_of(pdf)[i])
            <= pdf.len(),
{
    let sigs = signatures_of(pdf);
    lemma_all_verified(pdf, sigs, store, now);
    assert forall|i: int| 0 <= i < sigs.len() implies contents_offset(#[trigger] sigs[i]) <= pdf.len() by {
        lemma_offset_inside(pdf, sigs[i], store, now);
    }
}

/// A signature that verifies has its contents inside the file.
proof fn lemma_offset_inside(pdf: Seq<u8>, sig: SigView, store: StoreView, now: i64)
    requires
        verified(pdf, sig, store, now) is Ok,
    ensures
        contents_offset(sig) <= pdf.len(),
{
}

/// The signature that a run makes is reported valid in the file with the signature alone,
/// names the owner, covers the whole of that file and lies behind the document.
proof fn lemma_made_signature(
    pdf: Seq<u8>,
    p12: Seq<u8>,
    password: Seq<char>,
    opts: SignOptions,
    now: u64,
    replies: Seq<Result<Seq<u8>, ErrorView>>,
    file: Seq<u8>,
    store: StoreView,
    later: i64,
)
    requires
        signed_by_owner(pdf, p12, password, opts, now, replies, file),
        first_signature_holds(pdf, p12, password, opts, now),
    ensures
        first_signature(pdf, p12, password, opts, now) is Some,
        ({
            let f = signed_file(pdf, p12, password, opts, now, replies);
            let sig = made_signature(pdf, p12, password, opts, now, replies);
            let r = sig.byte_range;
            let capacity = opts.signature_capacity as nat;
            &&& begins_with(f, pdf)
            &&& pdf.len() < f.len()
            &&& begins_with(file, f)
            &&& opts.pades_level.rank() < PadesLevel::Blt.rank() ==> file == f
            &&& pdf.len() <= contents_offset(sig)
            &&& r.len() == 4 && r[0] == 0 && r[2] + r[3] == f.len() && r[1] + r[3] == f.len() - (2 * capacity + 2)
            &&& reported_valid(f, sig, store, later, owner_name(keystore_of(p12, password)->Ok_0->0))
        }),
{
    let doc = loaded(pdf)->Ok_0;
    let capacity = opts.signature_capacity as nat;
    let (v, lt, cms) = first_signature(pdf, p12, password, opts, now)->0;
    let w = embedded_cms(opts.pades_level, cms, replies)->0;
    law_every_level_embeds_the_signature(pdf, p12, password, opts, now, replies, file);
    let f = signed_file(pdf, p12, password, opts, now, replies);
    lemma_update_is_longer(pdf, doc, opts);
    law_signature_update_is_ready(pdf, doc, opts);
    let u = signature_update(pdf, doc, opts)->Ok_0;
    let owner = owner_name(keystore_of(p12, password)->Ok_0->0);
    lemma_signed_update(u, pdf.len() as int, capacity, v, lt, w, f, store, later, owner);
    lemma_stamp_keeps(u, capacity, v, lt, w, f, pdf);
}

/// A signature is reported valid, names its owner, covers the whole document and has a
/// verdict on its chain only under a trust store.
#[verifier::opaque]
pub open spec fn reported_valid(file: Seq<u8>, sig: SigView, store: StoreView, later: i64, owner: Seq<char>) -> bool {
    match verified(file, sig, store, later) {
        Ok(w) => {
            &&& w.valid
            &&& w.covers_whole_document
            &&& w.byte_range == sig.byte_range
            &&& w.signed_len == sig.byte_range[1] + sig.byte_range[3]
            &&& w.signer == Some(owner)
            &&& store.roots.len() == 0 ==> w.chain_trusted is None
        },
        Err(_) => false,
    }
}

/// What is reported of a signature that was written into an update that is ready for it.
pub proof fn lemma_signed_update(
    u: Seq<u8>,
    start: int,
    capacity: nat,
    v: Seq<u8>,
    lt: int,
    cms: Seq<u8>,
    file: Seq<u8>,
    store: StoreView,
    later: i64,
    owner: Seq<char>,
)
    requires
        0 <= start < u.len(),
        ready(u, start, capacity, lit("ETSI.CAdES.detached")),
        prepared(u, capacity, start) == Ok::<(Seq<u8>, int), ErrorView>((v, lt)),
        filled(v, lt, capacity, cms) == Ok::<Seq<u8>, ErrorView>(file),
        file.len() <= i64::MAX,
        framed(cms),
        detached_verdict(cms, to_sign(v, lt, capacity)) == Ok::<Seq<char>, ErrorView>(owner),
    ensures
        start < file.len(),
        ({
            let r = range_around(lt, capacity, v.len() as int);
            let sig = SigView { byte_range: r, contents: padded(cms, capacity), is_timestamp: false };
            &&& start <= contents_offset(sig)
            &&& r.len() == 4 && r[0] == 0 && r[2] + r[3] == file.len() && r[1] + r[3] == file.len() - (2 * capacity + 2)
            &&& reported_valid(file, sig, store, later, owner)
        }),
{
    lemma_lengths(u, start, capacity, cms);
    lemma_placeholder_behind(u, capacity, start);
    law_signed_file_reads_back(u, start, capacity, lit("ETSI.CAdES.detached"), cms, store, later);
    lemma_subfilters_differ();
    assert(reported_from(v, lt, capacity, cms, false, store, later));
    lemma_read_back(v, lt, capacity, cms, file, store, later, owner);
}

pub proof fn lemma_update_is_longer(pdf: Seq<u8>, doc: Doc, opts: SignOptions)
    ensures
        signature_update(pdf, doc, opts) matches Ok(u) ==> pdf.len() < u.len() && begins_with(u, pdf),
{
    if let Ok((s, size, root)) = signature_items(doc, opts) {
        if let Some(prev) = startxref(pdf) {
            law_update_keeps_original(pdf, s, size as u32, root, prev, lookup(doc.trailer, lit("ID")));
        }
    }
}

/// What is reported of a signature that was read back and that holds.
proof fn lemma_read_back(
    v: Seq<u8>,
    lt: int,
    capacity: nat,
    cms: Seq<u8>,
    file: Seq<u8>,
    store: StoreView,
    later: i64,
    owner: Seq<char>,
)
    requires
        0 <= lt,
        lt + 1 + 2 * capacity < v.len() <= i64::MAX,
        filled(v, lt, capacity, cms) == Ok::<Seq<u8>, ErrorView>(file),
        file.len() == v.len(),
        framed(cms),
        cms.len() <= capacity,
        reported_from(v, lt, capacity, cms, false, store, later),
        detached_verdict(cms, to_sign(v, lt, capacity)) == Ok::<Seq<char>, ErrorView>(owner),
    ensures
        ({
            let r = range_around(lt, capacity, v.len() as int);
            let sig = SigView { byte_range: r, contents: padded(cms, capacity), is_timestamp: false };
            reported_valid(file, sig, store, later, owner)
        }),
{
    let r = range_around(lt, capacity, v.len() as int);
    let q = lt + 2 + 2 * capacity;
    law_padding_is_dropped(cms, capacity);
    law_fill_keeps_signed_bytes(v, lt, capacity, cms);
    assert(file.subrange(0, lt) =~= file.take(lt));
    assert(file.subrange(q, file.len() as int) =~= file.skip(q));
    assert(signed_part(file, r) =~= to_sign(v, lt, capacity));
    reveal(reported_valid);
    reveal(reported_from);
}

/// The report on a file whose signatures are those of a document and one more.
pub proof fn lemma_report_grows(
    pdf: Seq<u8>,
    file: Seq<u8>,
    sig: SigView,
    store: StoreView,
    before: i64,
    later: i64,
)
    requires
        begins_with(file, pdf),
        pdf.len() < file.len(),
        reported(pdf, store, before) is Ok,
        signatures_of(file) == signatures_of(pdf).push(sig),
        verified(file, sig, store, later) is Ok,
    ensures
        match reported(file, store, later) {
            Ok(r1) => {
                let r0 = reported(pdf, store, before)->Ok_0;
                &&& r1.len() == r0.len() + 1
                &&& forall|i: int| 0 <= i < r0.len() ==> still_reported(r0[i], #[trigger] r1[i])
                &&& verified(file, sig, store, later) == Ok::<VerifiedView, ErrorView>(r1.last())
            },
            Err(_) => false,
        },
{
    let sigs = signatures_of(pdf);
    let all = sigs.push(sig);
    lemma_all_verified(pdf, sigs, store, before);
    assert forall|i: int| 0 <= i < all.len() implies verified(file, #[trigger] all[i], store, later) is Ok by {
        if i < sigs.len() {
            assert(verified(pdf, sigs[i], store, before) is Ok);
            law_prior_signature_stays_valid(pdf, file, sigs[i], store, before, later);
        }
    }
    lemma_all_verified(file, all, store, later);
    assert(all.take(sigs.len() as int) =~= sigs);
    law_prior_entries_stay(pdf, file, store, before, later);
    let r1 = reported(file, store, later)->Ok_0;
    assert(verified(file, all[sigs.len() as int], store, later) == Ok::<VerifiedView, ErrorView>(r1.last()));
}

/// A document is signed, at any level and whatever the replies are, with the key of a
/// keystore whose first certificate belongs to it, and each update parses to the document
/// before it with the objects of the update.
pub open spec fn signed_by_owner(
    pdf: Seq<u8>,
    p12: Seq<u8>,
    password: Seq<char>,
    opts: SignOptions,
    now: u64,
    replies: Seq<Result<Seq<u8>, ErrorView>>,
    file: Seq<u8>,
) -> bool {
    let signed = signed_file(pdf, p12, password, opts, now, replies);
    let (_, _, cms) = first_signature(pdf, p12, password, opts, now)->0;
    &&& run(first_step(pdf, p12, password, opts, now), replies) == StepView::Done(Ok(file))
    &&& first_reply_keeps(pdf, p12, password, opts, now, replies)
    &&& file.len() <= i64::MAX
    &&& plain_document(pdf, opts)
    &&& parses_as_signed(pdf, p12, password, opts, now, replies, signed)
    &&& later_updates_parse(
        job_of(opts),
        signed,
        embedded_cms(opts.pades_level, cms, replies)->0,
        later_replies(opts.pades_level, replies),
        file,
    )
    &&& keystore_of(p12, password) matches Ok(Some(chain)) && owned(chain)
}

/// Signing adds a valid signature to whatever the report on the document is, at any time
/// and under any trust store.
pub open spec fn adds_valid_signature(
    pdf: Seq<u8>,
    p12: Seq<u8>,
    password: Seq<char>,
    opts: SignOptions,
    now: u64,
) -> bool {
    forall|replies: Seq<Result<Seq<u8>, ErrorView>>, file: Seq<u8>, store: StoreView, before: i64, later: i64|
        #[trigger] signed_by_owner(pdf, p12, password, opts, now, replies, file) && #[trigger] reported(pdf, store, before) is Ok
            ==> #[trigger] reported(file, store, later) is Ok && grown_report(
            opts.pades_level,
            reported(pdf, store, before)->Ok_0,
            reported(file, store, later)->Ok_0,
            signed_file(pdf, p12, password, opts, now, replies).len(),
            owner_name(keystore_of(p12, password)->Ok_0->0),
            opts.signature_capacity as nat,
            store.roots.len() == 0,
        )
}

/// What the first step makes holds, so that it adds a valid signature.
pub proof fn lemma_adds_valid_signature(
    pdf: Seq<u8>,
    p12: Seq<u8>,
    password: Seq<char>,
    opts: SignOptions,
    now: u64,
)
    requires
        first_signature_holds(pdf, p12, password, opts, now),
    ensures
        adds_valid_signature(pdf, p12, password, opts, now),
{
    assert forall|replies: Seq<Result<Seq<u8>, ErrorView>>, file: Seq<u8>, store: StoreView, before: i64, later: i64|
        #[trigger] signed_by_owner(pdf, p12, password, opts, now, replies, file) && #[trigger] reported(
            pdf,
            store,
            before,
        ) is Ok implies #[trigger] reported(file, store, later) is Ok && grown_report(
        opts.pades_level,
        reported(pdf, store, before)->Ok_0,
        reported(file, store, later)->Ok_0,
        signed_file(pdf, p12, password, opts, now, replies).len(),
        owner_name(keystore_of(p12, password)->Ok_0->0),
        opts.signature_capacity as nat,
        store.roots.len() == 0,
    ) by {
        law_signing_grows_the_report(pdf, p12, password, opts, now, replies, file, store, before, later);
    }
}

/// The placeholder that is found behind `start` bytes lies behind them.
pub proof fn lemma_placeholder_behind(u: Seq<u8>, capacity: nat, start: int)
    requires
        0 <= start <= u.len(),
    ensures
        prepared(u, capacity, start) matches Ok((v, lt)) ==> start <= lt && lt + 1 + 2 * capacity < v.len()
            && v.len() == u.len(),
{
    assert(u.take(start).len() == start);
    crate::sign_laws::lemma_prepared_keeps(u, capacity, start, u.take(start));
}

} // verus!
