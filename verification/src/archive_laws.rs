//! What the updates behind a signature promise: validation material and document
//! timestamps keep the entries of a report.
use vstd::prelude::*;

use crate::der_reader::{length_at, value_at};
use crate::document::{dict_at, loaded, Doc};
use crate::dss::{der_stream_obj, dss_appended, dss_dict, dss_items, material_added, streams_added, MaterialView};
use crate::error::ErrorView;
use crate::incremental::{insert_item, law_insert_item, law_update_keeps_original, startxref, Item};
use crate::level_laws::lemma_run_step;
use crate::locate::{contents_offset, in_file_order, signatures_among, signatures_of, SigView};
use crate::material::material_certs;
use crate::object::{lookup, put, Obj, ObjectId};
use crate::options::PadesLevel;
use crate::placeholder::{filled, law_fill_keeps_signed_bytes, outside};
use crate::placeholder_laws::range_around;
use crate::report_laws::{
    lemma_doc_signatures, lemma_offsets_inside, lemma_placeholder_behind, lemma_report_grows, lemma_reported_on,
    lemma_signed_dict, lemma_updated_signatures, reads_as_update, signed_dict, still_reported, tame_but, with_item,
};
use crate::roundtrip_laws::{law_signed_file_reads_back, lemma_lengths, reported_from};
use crate::sign::{
    after_dss, after_signature, collection_for, document_stamp_step, material_of, next_material, next_step, prepared, run,
    to_sign, with_reply, CollectionView, JobView, PendingView, StepView,
};
use crate::sign_laws::{begins_with, lemma_prepared_keeps, padded};
use crate::signer::framed;
use crate::trust::StoreView;
use crate::tsa::{status_at, token_in_reply};
use crate::update::{appended, doctimestamp_dict, timestamp_items, timestamp_update};
use crate::update_laws::{
    direct, harmless, law_timestamp_items, law_timestamp_update_is_ready, lemma_head, lemma_numbered,
    lemma_same_signature, numbered, ready, rewrites_no_range, sig_of, stamp_item,
};
use crate::util::lit;
use crate::verify::{crypto_verdict, reported, verified, VerifiedView};

verus! {

// ---------------------------------------------------------------------------
// Validation material

/// The items are in order and change no signature.
spec fn tame(doc: Doc, s: Seq<Item>) -> bool {
    tame_but(doc, s, s.len() as int)
}

proof fn lemma_add_tame(doc: Doc, s: Seq<Item>, y: Item)
    requires
        tame(doc, s),
        harmless(doc, y),
    ensures
        tame(doc, insert_item(s, y)),
{
    law_insert_item(s, y);
    let t = insert_item(s, y);
    let at = choose|k: int| 0 <= k < t.len() && t[k] == y;
    assert forall|i: int| 0 <= i < t.len() implies harmless(doc, #[trigger] t[i]) by {
        if t[i].id == y.id {
            if i < at {
                assert(t[i].id < t[at].id);
            } else if at < i {
                assert(t[at].id < t[i].id);
            }
        } else {
            assert(t.contains(t[i]));
            assert(s.contains(t[i]));
            let k = choose|k: int| 0 <= k < s.len() && s[k] == t[i];
            assert(harmless(doc, s[k]));
        }
    }
}

proof fn lemma_streams_tame(doc: Doc, s: Seq<Item>, n: int, ders: Seq<Seq<u8>>)
    requires
        tame(doc, s),
        doc.max_id < n,
        n + ders.len() <= u32::MAX,
    ensures
        tame(doc, streams_added(s, n, ders)),
    decreases ders.len(),
{
    if ders.len() > 0 {
        lemma_streams_tame(doc, s, n, ders.drop_last());
        let y = Item { id: (n + ders.len() - 1) as u32, gen: 0, obj: der_stream_obj(ders.last()) };
        lemma_add_tame(doc, streams_added(s, n, ders.drop_last()), y);
    }
}

/// The items of an update with validation material change no signature.
proof fn lemma_material_tame(doc: Doc, m: MaterialView)
    requires
        numbered(doc),
    ensures
        dss_items(doc, m) matches Ok((s, _, _)) ==> tame(doc, s),
{
    if let Ok((s, size, root)) = dss_items(doc, m) {
        let n = doc.max_id + 1;
        let s0 = Seq::<Item>::empty();
        lemma_streams_tame(doc, s0, n, m.certs);
        let s1 = streams_added(s0, n, m.certs);
        lemma_streams_tame(doc, s1, n + m.certs.len(), m.crls);
        let s2 = streams_added(s1, n + m.certs.len(), m.crls);
        lemma_streams_tame(doc, s2, n + m.certs.len() + m.crls.len(), m.ocsps);
        let catalog = dict_at(doc, root)->Ok_0;
        let v = Obj::Dictionary(dss_dict(n, m));
        lemma_same_signature(catalog, lit("DSS"), v);
        lemma_numbered(doc, root);
        let y = Item { id: root.0, gen: root.1, obj: Obj::Dictionary(put(catalog, lit("DSS"), v)) };
        assert(harmless(doc, y));
        lemma_add_tame(doc, material_added(n, m), y);
    }
}

/// An updated file parses to the document with the items of the update.
pub open spec fn parses_as_updated(pdf: Seq<u8>, s: Seq<Item>, out: Seq<u8>) -> bool {
    match (loaded(pdf), loaded(out)) {
        (Ok(doc), Ok(after)) => numbered(doc) && direct(doc) && reads_as_update(doc, s, after),
        _ => false,
    }
}

/// A file with validation material parses to the document with the objects of the
/// material.
pub open spec fn reads_with_material(pdf: Seq<u8>, m: MaterialView, out: Seq<u8>) -> bool {
    loaded(pdf) matches Ok(doc) && dss_items(doc, m) matches Ok((s, _, _)) && parses_as_updated(pdf, s, out)
}

/// An update begins with the document and is longer.
pub proof fn lemma_appended_is_longer(pdf: Seq<u8>, doc: Doc, s: Seq<Item>, size: int, root: ObjectId)
    ensures
        appended(pdf, doc, s, size, root) matches Ok(u) ==> begins_with(u, pdf) && pdf.len() < u.len(),
{
    if let Ok(u) = appended(pdf, doc, s, size, root) {
        law_update_keeps_original(pdf, s, size as u32, root, startxref(pdf)->0, lookup(doc.trailer, lit("ID")));
    }
}

/// Two reports have entries for the same signatures, and those of the second one say what
/// those of the first one say, but that none of them covers the whole document.
pub open spec fn same_entries(r0: Seq<VerifiedView>, r1: Seq<VerifiedView>) -> bool {
    r0.len() == r1.len() && forall|i: int| 0 <= i < r0.len() ==> still_reported(r0[i], #[trigger] r1[i])
}

/// Validation material changes no signature: the report on a document with material has
/// the entries of the report on the document, each of which says what it said, but that
/// it no longer covers the whole document. The updated file must parse to the document
/// with the objects of the material.
pub proof fn law_material_keeps_the_report(
    pdf: Seq<u8>,
    m: MaterialView,
    out: Seq<u8>,
    store: StoreView,
    before: i64,
    later: i64,
)
    requires
        dss_appended(pdf, m) == Ok::<Seq<u8>, ErrorView>(out),
        reads_with_material(pdf, m, out),
        reported(pdf, store, before) is Ok,
    ensures
        reported(out, store, later) is Ok,
        same_entries(reported(pdf, store, before)->Ok_0, reported(out, store, later)->Ok_0),
{
    let doc = loaded(pdf)->Ok_0;
    let after = loaded(out)->Ok_0;
    let (s, size, root) = dss_items(doc, m)->Ok_0;
    lemma_appended_is_longer(pdf, doc, s, size, root);
    lemma_material_tame(doc, m);
    let none = SigView { byte_range: Seq::empty(), contents: Seq::empty(), is_timestamp: false };
    lemma_updated_signatures(doc, after, s, none, s.len() as int);
    assert(signatures_of(out) == signatures_of(pdf));
    lemma_reported_on(pdf, out, store, before, later);
}

// ---------------------------------------------------------------------------
// Document timestamps

/// The item of a document timestamp with its byte range and its token written.
pub open spec fn stamped_item(doc: Doc, capacity: nat, byte_range: Seq<i64>, contents: Seq<u8>) -> Item {
    Item {
        obj: Obj::Dictionary(signed_dict(doctimestamp_dict(capacity)->Dictionary_0, byte_range, contents)),
        ..stamp_item(doc, capacity)
    }
}

/// A file with a document timestamp, whose token is given, parses to the document with
/// the objects of the timestamp. None of the objects that are written anew holds a byte
/// range.
pub open spec fn reads_with_stamp(pdf: Seq<u8>, capacity: nat, token: Seq<u8>, file: Seq<u8>) -> bool {
    match loaded(pdf) {
        Err(_) => false,
        Ok(doc) => {
            &&& timestamp_items(doc, capacity) matches Ok((s, _, _)) && rewrites_no_range(doc, s)
            &&& timestamp_update(pdf, doc, capacity) matches Ok(u) && prepared(u, capacity, pdf.len() as int) matches Ok(
                (v, lt),
            ) && parses_as_updated(
                pdf,
                with_item(
                    timestamp_items(doc, capacity)->Ok_0.0,
                    stamped_item(doc, capacity, range_around(lt, capacity, v.len() as int), padded(token, capacity)),
                ),
                file,
            )
        },
    }
}

/// The token of the first of the replies.
pub open spec fn first_token(replies: Seq<Result<Seq<u8>, ErrorView>>) -> Seq<u8> {
    token_in_reply(replies[0]->Ok_0)->Ok_0
}

/// A report has the entries of another one, and behind them one of a document timestamp
/// that covers the whole document, valid as the token is for what is stamped.
pub open spec fn stamp_reported(r0: Seq<VerifiedView>, r1: Seq<VerifiedView>, token: Seq<u8>, data: Seq<u8>) -> bool {
    &&& r1.len() == r0.len() + 1
    &&& forall|i: int| 0 <= i < r0.len() ==> still_reported(r0[i], #[trigger] r1[i])
    &&& r1.last().covers_whole_document
    &&& r1.last().valid == crypto_verdict(token, data, true).0
}

/// What is stamped when a document timestamp is added to a document.
pub open spec fn stamped_data(pdf: Seq<u8>, capacity: nat) -> Seq<u8> {
    let (v, lt) = prepared(
        timestamp_update(pdf, loaded(pdf)->Ok_0, capacity)->Ok_0,
        capacity,
        pdf.len() as int,
    )->Ok_0;
    to_sign(v, lt, capacity)
}

/// The token of a reply is one DER sequence.
proof fn lemma_token_is_framed(reply: Seq<u8>)
    ensures
        token_in_reply(reply) matches Ok(t) ==> t.len() <= usize::MAX ==> framed(t),
{
    if let Ok(t) = token_in_reply(reply) {
        let (tag, a, end) = value_at(reply, 0)->0;
        let (status, i) = status_at(reply, a, end)->0;
        assert(t =~= reply.subrange(i, end));
        let (k, n) = length_at(reply, i + 1)->0;
        assert(end == i + 1 + k + n);
        assert(t[0] == reply[i] && t[1] == reply[i + 1]);
        if reply[i + 1] >= 0x80 {
            assert(t.subrange(2, 1 + k) =~= reply.subrange(i + 2, i + 1 + k));
        }
    }
}

/// A document timestamp keeps the entries of the report on the document and adds its own
/// behind them. The stamped file must parse to the document with the objects of the
/// timestamp.
pub proof fn law_document_timestamp_grows_the_report(
    pdf: Seq<u8>,
    url: Seq<char>,
    capacity: nat,
    replies: Seq<Result<Seq<u8>, ErrorView>>,
    file: Seq<u8>,
    store: StoreView,
    before: i64,
    later: i64,
)
    requires
        run(document_stamp_step(pdf, url, capacity), replies) == StepView::Done(Ok(file)),
        capacity <= usize::MAX,
        file.len() <= i64::MAX,
        reads_with_stamp(pdf, capacity, first_token(replies), file),
        reported(pdf, store, before) is Ok,
    ensures
        begins_with(file, pdf),
        pdf.len() < file.len(),
        reported(file, store, later) is Ok,
        stamp_reported(
            reported(pdf, store, before)->Ok_0,
            reported(file, store, later)->Ok_0,
            first_token(replies),
            stamped_data(pdf, capacity),
        ),
{
    let token = first_token(replies);
    lemma_stamp_run(pdf, url, capacity, replies, file);
    lemma_token_is_framed(replies[0]->Ok_0);
    lemma_stamp_written(pdf, capacity, token, file, store, later);
    let sig = stamp_of(pdf, capacity, token);
    lemma_offsets_inside(pdf, store, before);
    lemma_stamp_parsed(pdf, capacity, token, file);
    reveal(stamp_holds);
    lemma_report_grows(pdf, file, sig, store, before, later);
}

/// The document timestamp that is added to a document, as it is read back.
spec fn stamp_of(pdf: Seq<u8>, capacity: nat, token: Seq<u8>) -> SigView {
    let u = timestamp_update(pdf, loaded(pdf)->Ok_0, capacity)->Ok_0;
    let (v, lt) = prepared(u, capacity, pdf.len() as int)->Ok_0;
    SigView {
        byte_range: range_around(lt, capacity, v.len() as int),
        contents: padded(token, capacity),
        is_timestamp: true,
    }
}

proof fn lemma_stamp_written(
    pdf: Seq<u8>,
    capacity: nat,
    token: Seq<u8>,
    file: Seq<u8>,
    store: StoreView,
    later: i64,
)
    requires
        capacity <= usize::MAX,
        file.len() <= i64::MAX,
        token.len() <= usize::MAX ==> framed(token),
        reads_with_stamp(pdf, capacity, token, file),
        loaded(pdf) matches Ok(doc) && timestamp_update(pdf, doc, capacity) matches Ok(u) && prepared(
            u,
            capacity,
            pdf.len() as int,
        ) matches Ok((v, lt)) && filled(v, lt, capacity, token) == Ok::<Seq<u8>, ErrorView>(file),
    ensures
        begins_with(file, pdf),
        pdf.len() < file.len(),
        pdf.len() <= contents_offset(stamp_of(pdf, capacity, token)),
        stamp_holds(file, stamp_of(pdf, capacity, token), token, stamped_data(pdf, capacity), store, later),
{
    let doc = loaded(pdf)->Ok_0;
    let (s, size, root) = timestamp_items(doc, capacity)->Ok_0;
    let u = timestamp_update(pdf, doc, capacity)->Ok_0;
    let (v, lt) = prepared(u, capacity, pdf.len() as int)->Ok_0;
    lemma_appended_is_longer(pdf, doc, s, size, root);
    law_timestamp_update_is_ready(pdf, doc, capacity);
    lemma_stamp_added(u, pdf.len() as int, capacity, v, lt, token, file, store, later);
    lemma_stamp_keeps(u, capacity, v, lt, token, file, pdf);
}

proof fn lemma_stamp_parsed(pdf: Seq<u8>, capacity: nat, token: Seq<u8>, file: Seq<u8>)
    requires
        reads_with_stamp(pdf, capacity, token, file),
        forall|i: int|
            0 <= i < signatures_of(pdf).len() ==> contents_offset(#[trigger] signatures_of(pdf)[i]) <= pdf.len(),
        pdf.len() <= contents_offset(stamp_of(pdf, capacity, token)),
    ensures
        signatures_of(file) == signatures_of(pdf).push(stamp_of(pdf, capacity, token)),
{
    let doc = loaded(pdf)->Ok_0;
    let sig = stamp_of(pdf, capacity, token);
    assert(signatures_of(pdf) == in_file_order(signatures_among(doc.objects)));
    assert forall|i: int| 0 <= i < in_file_order(signatures_among(doc.objects)).len() implies contents_offset(
        #[trigger] in_file_order(signatures_among(doc.objects))[i],
    ) <= contents_offset(sig) by {
        assert(contents_offset(signatures_of(pdf)[i]) <= pdf.len());
    }
    lemma_stamp_found(doc, loaded(file)->Ok_0, capacity, sig);
}

proof fn lemma_stamp_run(
    pdf: Seq<u8>,
    url: Seq<char>,
    capacity: nat,
    replies: Seq<Result<Seq<u8>, ErrorView>>,
    file: Seq<u8>,
)
    requires
        run(document_stamp_step(pdf, url, capacity), replies) == StepView::Done(Ok(file)),
    ensures
        replies.len() > 0,
        replies[0] matches Ok(body) && token_in_reply(body) is Ok,
        loaded(pdf) matches Ok(doc) && timestamp_update(pdf, doc, capacity) matches Ok(u) && prepared(
            u,
            capacity,
            pdf.len() as int,
        ) matches Ok((v, lt)) && filled(v, lt, capacity, first_token(replies)) == Ok::<Seq<u8>, ErrorView>(file),
{
    let step = document_stamp_step(pdf, url, capacity);
    lemma_run_step(step, replies);
    let doc = loaded(pdf)->Ok_0;
    let u = timestamp_update(pdf, doc, capacity)->Ok_0;
    let (v, lt) = prepared(u, capacity, pdf.len() as int)->Ok_0;
    let next = next_step(PendingView::DocumentStamp { buf: v, lt, capacity }, replies[0]);
    lemma_run_step(next, replies.skip(1));
}

/// The token that was written into an update that is ready for it is reported: it covers
/// the whole document.
proof fn lemma_stamp_added(
    u: Seq<u8>,
    start: int,
    capacity: nat,
    v: Seq<u8>,
    lt: int,
    token: Seq<u8>,
    file: Seq<u8>,
    store: StoreView,
    later: i64,
)
    requires
        0 <= start < u.len(),
        ready(u, start, capacity, lit("ETSI.RFC3161")),
        prepared(u, capacity, start) == Ok::<(Seq<u8>, int), ErrorView>((v, lt)),
        filled(v, lt, capacity, token) == Ok::<Seq<u8>, ErrorView>(file),
        file.len() <= i64::MAX,
        capacity <= usize::MAX,
        token.len() <= usize::MAX ==> framed(token),
    ensures
        ({
            let sig = SigView {
                byte_range: range_around(lt, capacity, v.len() as int),
                contents: padded(token, capacity),
                is_timestamp: true,
            };
            &&& file.len() == u.len()
            &&& start <= contents_offset(sig)
            &&& stamp_holds(file, sig, token, to_sign(v, lt, capacity), store, later)
        }),
{
    lemma_lengths(u, start, capacity, token);
    lemma_placeholder_behind(u, capacity, start);
    law_signed_file_reads_back(u, start, capacity, lit("ETSI.RFC3161"), token, store, later);
    lemma_stamp_holds(v, lt, capacity, token, file, store, later);
}

/// What a verifier finds of a document timestamp.
#[verifier::opaque]
spec fn stamp_holds(
    file: Seq<u8>,
    sig: SigView,
    token: Seq<u8>,
    data: Seq<u8>,
    store: StoreView,
    later: i64,
) -> bool {
    verified(file, sig, store, later) matches Ok(w) && w.covers_whole_document && w.valid == crypto_verdict(
        token,
        data,
        true,
    ).0
}

proof fn lemma_stamp_holds(
    v: Seq<u8>,
    lt: int,
    capacity: nat,
    token: Seq<u8>,
    file: Seq<u8>,
    store: StoreView,
    later: i64,
)
    requires
        filled(v, lt, capacity, token) == Ok::<Seq<u8>, ErrorView>(file),
        file.len() == v.len(),
        reported_from(v, lt, capacity, token, true, store, later),
    ensures
        ({
            let sig = SigView {
                byte_range: range_around(lt, capacity, v.len() as int),
                contents: padded(token, capacity),
                is_timestamp: true,
            };
            stamp_holds(file, sig, token, to_sign(v, lt, capacity), store, later)
        }),
{
    reveal(reported_from);
    reveal(stamp_holds);
}

/// A file begins with what the update that it was made of begins with.
pub proof fn lemma_stamp_keeps(
    u: Seq<u8>,
    capacity: nat,
    v: Seq<u8>,
    lt: int,
    token: Seq<u8>,
    file: Seq<u8>,
    pdf: Seq<u8>,
)
    requires
        begins_with(u, pdf),
        pdf.len() < u.len(),
        prepared(u, capacity, pdf.len() as int) == Ok::<(Seq<u8>, int), ErrorView>((v, lt)),
        filled(v, lt, capacity, token) == Ok::<Seq<u8>, ErrorView>(file),
    ensures
        begins_with(file, pdf),
{
    lemma_placeholder_behind(u, capacity, pdf.len() as int);
    lemma_prepared_keeps(u, capacity, pdf.len() as int, pdf);
    law_fill_keeps_signed_bytes(v, lt, capacity, token);
    let n = pdf.len() as int;
    assert(file.take(lt) =~= v.take(lt)) by {
        assert(outside(file, lt, lt + 2 + 2 * capacity).take(lt) =~= file.take(lt));
        assert(outside(v, lt, lt + 2 + 2 * capacity).take(lt) =~= v.take(lt));
    }
    assert(file.take(n) =~= file.take(lt).take(n));
    assert(v.take(n) =~= v.take(lt).take(n));
}

/// A document that reads as another one with a document timestamp has the signatures of
/// the other one and the timestamp behind them.
proof fn lemma_stamp_found(doc: Doc, after: Doc, capacity: nat, sig: SigView)
    requires
        numbered(doc),
        direct(doc),
        sig.byte_range.len() == 4,
        sig.is_timestamp,
        timestamp_items(doc, capacity) matches Ok((s, size, _)) && size <= u32::MAX && reads_as_update(
            doc,
            with_item(s, stamped_item(doc, capacity, sig.byte_range, sig.contents)),
            after,
        ),
        forall|i: int|
            0 <= i < in_file_order(signatures_among(doc.objects)).len() ==> contents_offset(
                #[trigger] in_file_order(signatures_among(doc.objects))[i],
            ) <= contents_offset(sig),
    ensures
        in_file_order(signatures_among(after.objects)) == in_file_order(signatures_among(doc.objects)).push(sig),
{
    let s = timestamp_items(doc, capacity)->Ok_0.0;
    law_timestamp_items(doc, capacity);
    lemma_stamped_item(doc, capacity, sig.byte_range, sig.contents);
    let y = stamped_item(doc, capacity, sig.byte_range, sig.contents);
    lemma_doc_signatures(doc, after, s, stamp_item(doc, capacity), y, sig);
}

proof fn lemma_stamped_item(doc: Doc, capacity: nat, byte_range: Seq<i64>, contents: Seq<u8>)
    requires
        byte_range.len() == 4,
    ensures
        sig_of(stamped_item(doc, capacity, byte_range, contents).obj) == Some(
            SigView { byte_range, contents, is_timestamp: true },
        ),
{
    let (kind, sub) = (lit("DocTimeStamp"), lit("ETSI.RFC3161"));
    let d = doctimestamp_dict(capacity)->Dictionary_0;
    lemma_head(kind, sub, capacity);
    assert(d.take(5) =~= d);
    lemma_signed_dict(d, kind, sub, capacity, byte_range, contents);
}

// ---------------------------------------------------------------------------
// Runs behind a signature

/// A collection with the replies to all that it asks for, and the replies that are left.
pub open spec fn gathered(c: CollectionView, replies: Seq<Result<Seq<u8>, ErrorView>>) -> Option<
    (CollectionView, Seq<Result<Seq<u8>, ErrorView>>),
>
    decreases replies.len(),
{
    if c.next >= c.urls.len() + c.queries.len() {
        Some((c, replies))
    } else if replies.len() == 0 {
        None
    } else {
        gathered(with_reply(c, replies[0]), replies.skip(1))
    }
}

/// The material that is embedded behind a signature, and the replies that are left: none
/// where the replies do not suffice.
pub open spec fn embedded_material(cms: Seq<u8>, replies: Seq<Result<Seq<u8>, ErrorView>>) -> Option<
    (MaterialView, Seq<Result<Seq<u8>, ErrorView>>),
> {
    match material_certs(cms) {
        Err(_) => None,
        Ok(certs) => match gathered(collection_for(certs), replies) {
            None => None,
            Some((c, rest)) => Some((material_of(c), rest)),
        },
    }
}

/// A run over the material of a collection that ends with a document embeds it first.
proof fn lemma_gathered(
    job: JobView,
    buf: Seq<u8>,
    c: CollectionView,
    replies: Seq<Result<Seq<u8>, ErrorView>>,
    file: Seq<u8>,
)
    requires
        run(next_material(job, buf, c), replies) == StepView::Done(Ok(file)),
    ensures
        gathered(c, replies) matches Some((d, rest)) && dss_appended(buf, material_of(d)) matches Ok(g) && run(
            after_dss(job, g),
            rest,
        ) == StepView::Done(Ok(file)),
    decreases replies.len(),
{
    let step = next_material(job, buf, c);
    lemma_run_step(step, replies);
    if c.next < c.urls.len() + c.queries.len() {
        lemma_gathered(job, buf, with_reply(c, replies[0]), replies.skip(1), file);
    }
}

/// Each update behind the file with the signature alone parses to the document before it
/// with the objects of the update.
pub open spec fn later_updates_parse(
    job: JobView,
    signed: Seq<u8>,
    cms: Seq<u8>,
    replies: Seq<Result<Seq<u8>, ErrorView>>,
    file: Seq<u8>,
) -> bool {
    job.level.rank() >= PadesLevel::Blt.rank() ==> (embedded_material(cms, replies) matches Some((m, rest))
        && dss_appended(signed, m) matches Ok(g) && reads_with_material(signed, m, g) && (job.level.rank()
        >= PadesLevel::Blta.rank() ==> reads_with_stamp(g, job.capacity, first_token(rest), file)))
}

/// A report has the entries of another one, and at the archival level one more, for the
/// document timestamp, which covers the whole document.
pub open spec fn carried_on(level: PadesLevel, r0: Seq<VerifiedView>, r1: Seq<VerifiedView>) -> bool {
    &&& r1.len() == r0.len() + (if level.rank() < PadesLevel::Blta.rank() {
        0int
    } else {
        1
    })
    &&& forall|i: int| 0 <= i < r0.len() ==> still_reported(r0[i], #[trigger] r1[i])
    &&& level.rank() >= PadesLevel::Blta.rank() ==> r1.last().covers_whole_document
}

/// From B-LT on, what is added behind a signature keeps the report on the document with
/// the signature, and at the archival level adds an entry for the document timestamp. Each
/// of the updates must parse to the document before it with the objects of the update.
pub proof fn law_higher_levels_keep_the_report(
    job: JobView,
    signed: Seq<u8>,
    cms: Seq<u8>,
    replies: Seq<Result<Seq<u8>, ErrorView>>,
    file: Seq<u8>,
    store: StoreView,
    before: i64,
    later: i64,
)
    requires
        job.level.rank() >= PadesLevel::Blt.rank(),
        run(after_signature(job, signed, cms), replies) == StepView::Done(Ok(file)),
        job.capacity <= usize::MAX,
        file.len() <= i64::MAX,
        later_updates_parse(job, signed, cms, replies, file),
        reported(signed, store, before) is Ok,
    ensures
        reported(file, store, later) is Ok,
        carried_on(job.level, reported(signed, store, before)->Ok_0, reported(file, store, later)->Ok_0),
{
    let certs = material_certs(cms)->Ok_0;
    lemma_run_step(after_signature(job, signed, cms), replies);
    lemma_gathered(job, signed, collection_for(certs), replies, file);
    let (m, rest) = embedded_material(cms, replies)->0;
    let g = dss_appended(signed, m)->Ok_0;
    law_material_keeps_the_report(signed, m, g, store, before, later);
    lemma_run_step(after_dss(job, g), rest);
    if job.level.rank() >= PadesLevel::Blta.rank() {
        let url = job.tsa_url->0;
        law_document_timestamp_grows_the_report(g, url, job.capacity, rest, file, store, later, later);
        lemma_carried_on(
            job.level,
            reported(signed, store, before)->Ok_0,
            reported(g, store, later)->Ok_0,
            reported(file, store, later)->Ok_0,
            first_token(rest),
            stamped_data(g, job.capacity),
        );
    }
}

proof fn lemma_carried_on(
    level: PadesLevel,
    r0: Seq<VerifiedView>,
    r1: Seq<VerifiedView>,
    r2: Seq<VerifiedView>,
    token: Seq<u8>,
    data: Seq<u8>,
)
    requires
        level.rank() >= PadesLevel::Blta.rank(),
        same_entries(r0, r1),
        stamp_reported(r1, r2, token, data),
    ensures
        carried_on(level, r0, r2),
{
    assert forall|i: int| 0 <= i < r0.len() implies still_reported(r0[i], #[trigger] r2[i]) by {
        assert(still_reported(r0[i], r1[i]));
    }
}

} // verus!
