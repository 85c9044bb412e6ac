//! What signing promises: the original bytes stay, the levels build on one another,
//! and what was signed reads back.
use vstd::prelude::*;

use crate::document::{loaded, Doc};
use crate::dss::{dss_appended, dss_items, MaterialView};
use crate::error::ErrorView;
use crate::incremental::{law_update_keeps_original, startxref};
use crate::locate::SigView;
use crate::material::{is_crl_reply, ocsp_successful};
use crate::object::lookup;
use crate::options::{PadesLevel, SignOptions};
use crate::placeholder::{filled, law_fill_keeps_signed_bytes, law_patch_keeps_rest, outside, patched, zero_digits};
use crate::sign::{
    after_dss, authority_missing, collection_for, document_stamp_step, first_signature, first_step, job_of,
    next_material, next_step, prepared, sound, step_with_update, to_sign, with_cms, with_reply, with_signature,
    CollectionView, JobView, PendingView, StepView,
};
use crate::trust::StoreView;
use crate::update::{signature_items, signature_update, timestamp_items, timestamp_update};
use crate::util::{der_len, first_from, hex, hex_value, lemma_first_from, lit, unhex};
use crate::verify::{cms_in_contents, covers_document, crypto_verdict, range_checked, signed_part, verified};

verus! {

// ---------------------------------------------------------------------------
// The original bytes stay

/// A file begins with the given bytes.
pub open spec fn begins_with(file: Seq<u8>, prefix: Seq<u8>) -> bool {
    prefix.len() <= file.len() && file.take(prefix.len() as int) == prefix
}

/// What waits for a reply begins with the given bytes, and its placeholder lies behind
/// them.
pub open spec fn pending_keeps(p: PendingView, prefix: Seq<u8>) -> bool {
    match p {
        PendingView::SignatureStamp { job, buf, lt, cms } => begins_with(buf, prefix) && lt >= prefix.len(),
        PendingView::Material { job, buf, collection } => begins_with(buf, prefix),
        PendingView::DocumentStamp { buf, lt, capacity } => begins_with(buf, prefix) && lt >= prefix.len(),
    }
}

/// What comes out of a step begins with the given bytes.
pub open spec fn step_keeps(s: StepView, prefix: Seq<u8>) -> bool {
    match s {
        StepView::Done(Ok(file)) => begins_with(file, prefix),
        StepView::Done(Err(_)) => true,
        StepView::Fetch(_, p) => sound(p) && pending_keeps(p, prefix),
    }
}

proof fn lemma_begins_transitive(c: Seq<u8>, b: Seq<u8>, a: Seq<u8>)
    requires
        begins_with(c, b),
        begins_with(b, a),
    ensures
        begins_with(c, a),
{
    assert(c.take(a.len() as int) =~= c.take(b.len() as int).take(a.len() as int));
}

proof fn lemma_filled_keeps(buf: Seq<u8>, lt: int, capacity: nat, der: Seq<u8>, prefix: Seq<u8>)
    requires
        begins_with(buf, prefix),
        prefix.len() <= lt,
        lt + 1 + 2 * capacity < buf.len(),
    ensures
        filled(buf, lt, capacity, der) matches Ok(v) ==> begins_with(v, prefix) && v.len() == buf.len(),
{
    if let Ok(v) = filled(buf, lt, capacity, der) {
        law_fill_keeps_signed_bytes(buf, lt, capacity, der);
        assert(v.take(prefix.len() as int) =~= buf.take(prefix.len() as int));
    }
}

/// Making a file ready for signing keeps its length and what it begins with.
pub proof fn lemma_prepared_keeps(buf: Seq<u8>, capacity: nat, start: int, prefix: Seq<u8>)
    requires
        begins_with(buf, prefix),
        prefix.len() <= start <= buf.len(),
    ensures
        prepared(buf, capacity, start) matches Ok((v, lt)) ==> begins_with(v, prefix) && prefix.len() <= lt && lt + 1
            + 2 * capacity < v.len() && v.len() == buf.len(),
{
    if let Ok((v, lt)) = prepared(buf, capacity, start) {
        lemma_first_from(buf, lit("/ByteRange"), start);
        let br = first_from(buf, lit("/ByteRange"), start)->0;
        lemma_first_from(buf, lit("/Contents"), br);
        let from = first_from(buf, lit("/Contents"), br)->0;
        lemma_first_from(buf, lit("<"), from);
        let gt = lt + 1 + 2 * capacity;
        let (a, b, c) = (
            crate::appearance::length_value(lt as nat) as int,
            crate::appearance::length_value((gt + 1) as nat) as int,
            crate::appearance::length_value((buf.len() - gt - 1) as nat) as int,
        );
        assert(patched(buf, start, a, b, c) == Ok::<Seq<u8>, ErrorView>(v));
        law_patch_keeps_rest(buf, start, a, b, c);
        assert forall|i: int| 0 <= i < prefix.len() implies #[trigger] v.take(prefix.len() as int)[i] == prefix[i] by {
            assert(v[i] == buf[i]);
            assert(buf.take(prefix.len() as int)[i] == buf[i]);
        }
        assert(v.take(prefix.len() as int) =~= prefix);
    }
}

proof fn lemma_timestamp_update_keeps(pdf: Seq<u8>, doc: Doc, capacity: nat)
    ensures
        timestamp_update(pdf, doc, capacity) matches Ok(u) ==> begins_with(u, pdf),
{
    if let Ok((s, size, root)) = timestamp_items(doc, capacity) {
        if let Some(prev) = startxref(pdf) {
            law_update_keeps_original(pdf, s, size as u32, root, prev, lookup(doc.trailer, lit("ID")));
        }
    }
}

proof fn lemma_signature_update_keeps(pdf: Seq<u8>, doc: Doc, opts: SignOptions)
    ensures
        signature_update(pdf, doc, opts) matches Ok(u) ==> begins_with(u, pdf),
{
    if let Ok((s, size, root)) = signature_items(doc, opts) {
        if let Some(prev) = startxref(pdf) {
            law_update_keeps_original(pdf, s, size as u32, root, prev, lookup(doc.trailer, lit("ID")));
        }
    }
}

proof fn lemma_dss_keeps(pdf: Seq<u8>, m: MaterialView)
    ensures
        dss_appended(pdf, m) matches Ok(u) ==> begins_with(u, pdf),
{
    if let Ok(doc) = loaded(pdf) {
        if let Ok((s, size, root)) = dss_items(doc, m) {
            if let Some(prev) = startxref(pdf) {
                law_update_keeps_original(pdf, s, size as u32, root, prev, lookup(doc.trailer, lit("ID")));
            }
        }
    }
}

proof fn lemma_document_stamp_keeps(pdf: Seq<u8>, url: Seq<char>, capacity: nat, prefix: Seq<u8>)
    requires
        begins_with(pdf, prefix),
    ensures
        step_keeps(document_stamp_step(pdf, url, capacity), prefix),
{
    if let Ok(doc) = loaded(pdf) {
        lemma_timestamp_update_keeps(pdf, doc, capacity);
        if let Ok(buf) = timestamp_update(pdf, doc, capacity) {
            lemma_begins_transitive(buf, pdf, prefix);
            lemma_prepared_keeps(buf, capacity, pdf.len() as int, prefix);
        }
    }
}

proof fn lemma_after_dss_keeps(job: JobView, buf: Seq<u8>, prefix: Seq<u8>)
    requires
        begins_with(buf, prefix),
    ensures
        step_keeps(after_dss(job, buf), prefix),
{
    if let Some(url) = job.tsa_url {
        lemma_document_stamp_keeps(buf, url, job.capacity, prefix);
    }
}

proof fn lemma_material_keeps(job: JobView, buf: Seq<u8>, c: CollectionView, prefix: Seq<u8>)
    requires
        begins_with(buf, prefix),
    ensures
        step_keeps(next_material(job, buf, c), prefix),
{
    if c.next >= c.urls.len() + c.queries.len() {
        let m = crate::sign::material_of(c);
        lemma_dss_keeps(buf, m);
        if let Ok(v) = dss_appended(buf, m) {
            lemma_begins_transitive(v, buf, prefix);
            lemma_after_dss_keeps(job, v, prefix);
        }
    }
}

proof fn lemma_signature_keeps(job: JobView, buf: Seq<u8>, lt: int, cms: Seq<u8>, prefix: Seq<u8>)
    requires
        begins_with(buf, prefix),
        prefix.len() <= lt,
        lt + 1 + 2 * job.capacity < buf.len(),
    ensures
        step_keeps(with_signature(job, buf, lt, cms), prefix),
{
    lemma_filled_keeps(buf, lt, job.capacity, cms, prefix);
    if let Ok(v) = filled(buf, lt, job.capacity, cms) {
        if let Ok(certs) = crate::material::material_certs(cms) {
            lemma_material_keeps(job, v, collection_for(certs), prefix);
        }
    }
}

proof fn lemma_cms_keeps(job: JobView, buf: Seq<u8>, lt: int, cms: Seq<u8>, prefix: Seq<u8>)
    requires
        begins_with(buf, prefix),
        prefix.len() <= lt,
        lt + 1 + 2 * job.capacity < buf.len(),
    ensures
        step_keeps(with_cms(job, buf, lt, cms), prefix),
{
    if job.level.rank() < PadesLevel::Bt.rank() {
        lemma_signature_keeps(job, buf, lt, cms, prefix);
    }
}

proof fn lemma_update_signed_keeps(
    pdf: Seq<u8>,
    buf: Seq<u8>,
    p12: Seq<u8>,
    password: Seq<char>,
    opts: SignOptions,
    now: u64,
)
    requires
        begins_with(buf, pdf),
    ensures
        step_keeps(step_with_update(pdf, buf, p12, password, opts, now), pdf),
{
    let capacity = opts.signature_capacity as nat;
    lemma_prepared_keeps(buf, capacity, pdf.len() as int, pdf);
    if let Ok((v, lt)) = prepared(buf, capacity, pdf.len() as int) {
        if let Ok(cms) = crate::signer::keystore_signature(p12, password, to_sign(v, lt, capacity), now) {
            lemma_cms_keeps(job_of(opts), v, lt, cms, pdf);
        }
    }
}

/// Signing keeps the original bytes verbatim: whatever the first step gives begins
/// with them, so that earlier signatures keep covering an unchanged byte range.
pub proof fn law_signing_keeps_original(pdf: Seq<u8>, p12: Seq<u8>, password: Seq<char>, opts: SignOptions, now: u64)
    ensures
        step_keeps(first_step(pdf, p12, password, opts, now), pdf),
{
    if let Ok(doc) = loaded(pdf) {
        lemma_signature_update_keeps(pdf, doc, opts);
        if let Ok(buf) = signature_update(pdf, doc, opts) {
            lemma_update_signed_keeps(pdf, buf, p12, password, opts, now);
        }
    }
}

/// Every further step keeps the original bytes too, whatever the replies are.
pub proof fn law_resuming_keeps_original(p: PendingView, reply: Result<Seq<u8>, ErrorView>, original: Seq<u8>)
    requires
        sound(p),
        pending_keeps(p, original),
    ensures
        step_keeps(next_step(p, reply), original),
{
    match p {
        PendingView::SignatureStamp { job, buf, lt, cms } => {
            if let Ok(body) = reply {
                if let Ok(token) = crate::tsa::token_in_reply(body) {
                    if let Ok(v) = crate::signer::stamped(cms, token) {
                        lemma_signature_keeps(job, buf, lt, v, original);
                    }
                }
            }
        },
        PendingView::Material { job, buf, collection } => {
            lemma_material_keeps(job, buf, with_reply(collection, reply), original);
        },
        PendingView::DocumentStamp { buf, lt, capacity } => {
            if let Ok(body) = reply {
                if let Ok(token) = crate::tsa::token_in_reply(body) {
                    lemma_filled_keeps(buf, lt, capacity, token, original);
                }
            }
        },
    }
}

// ---------------------------------------------------------------------------
// Levels

/// The baseline level asks nobody: signing is done in one step.
pub proof fn law_baseline_needs_no_network(
    pdf: Seq<u8>,
    p12: Seq<u8>,
    password: Seq<char>,
    opts: SignOptions,
    now: u64,
)
    requires
        opts.pades_level == PadesLevel::Bb,
    ensures
        first_step(pdf, p12, password, opts, now) is Done,
{
}

/// Levels are cumulative: whatever a higher level makes of a signature begins with the
/// document that carries the signature alone.
pub proof fn law_levels_build_on_signature(job: JobView, buf: Seq<u8>, lt: int, cms: Seq<u8>)
    requires
        0 <= lt,
        lt + 1 + 2 * job.capacity < buf.len(),
        filled(buf, lt, job.capacity, cms) is Ok,
    ensures
        step_keeps(with_signature(job, buf, lt, cms), filled(buf, lt, job.capacity, cms)->Ok_0),
{
    let v = filled(buf, lt, job.capacity, cms)->Ok_0;
    assert(v.take(v.len() as int) =~= v);
    if let Ok(certs) = crate::material::material_certs(cms) {
        lemma_material_keeps(job, v, collection_for(certs), v);
    }
}

/// Every level above the baseline needs a time-stamping authority: without one, signing
/// ends in an error, whatever the document and the keystore are.
pub proof fn law_timestamps_need_authority(
    pdf: Seq<u8>,
    p12: Seq<u8>,
    password: Seq<char>,
    opts: SignOptions,
    now: u64,
)
    requires
        opts.pades_level.rank() >= PadesLevel::Bt.rank(),
        opts.tsa_url is None,
    ensures
        first_step(pdf, p12, password, opts, now) matches StepView::Done(Err(_)),
        first_signature(pdf, p12, password, opts, now) is Some ==> first_step(pdf, p12, password, opts, now)
            == StepView::Done(Err(authority_missing(opts.pades_level))),
{
}

// ---------------------------------------------------------------------------
// Fetching

/// How far signing has come: timestamp of the signature, validation material, timestamp
/// of the document.
pub open spec fn stage(p: PendingView) -> nat {
    match p {
        PendingView::SignatureStamp { job, buf, lt, cms } => 0,
        PendingView::Material { job, buf, collection } => 1,
        PendingView::DocumentStamp { buf, lt, capacity } => 2,
    }
}

/// How much of the validation material is still to be fetched.
pub open spec fn material_left(p: PendingView) -> int {
    match p {
        PendingView::Material { job, buf, collection } => collection.urls.len() + collection.queries.len()
            - collection.next,
        _ => 0,
    }
}

/// Signing comes to an end: each reply leads on to a later stage, or leaves less of the
/// validation material to be fetched.
pub proof fn law_signing_ends(p: PendingView, reply: Result<Seq<u8>, ErrorView>)
    requires
        sound(p),
    ensures
        next_step(p, reply) matches StepView::Fetch(_, q) ==> stage(p) < stage(q) || (stage(p) == stage(q) && 0
            < material_left(q) < material_left(p)),
{
}

/// Fetching validation material is best-effort: a failed fetch, or a reply that is not
/// what was asked for, leaves the collected material as it is and goes on to the next.
pub proof fn law_material_is_best_effort(
    job: JobView,
    buf: Seq<u8>,
    c: CollectionView,
    reply: Result<Seq<u8>, ErrorView>,
)
    requires
        reply matches Ok(b) ==> (if c.next < c.urls.len() {
            !is_crl_reply(b)
        } else {
            ocsp_successful(b) != Some(true)
        }),
    ensures
        next_step(PendingView::Material { job, buf, collection: c }, reply) == next_material(
            job,
            buf,
            (CollectionView { next: c.next + 1, ..c }),
        ),
{
}

// ---------------------------------------------------------------------------
// What was signed reads back

/// The padded content of a placeholder: the signature, and zeros behind it.
pub open spec fn padded(der: Seq<u8>, capacity: nat) -> Seq<u8> {
    der + Seq::new((capacity - der.len()) as nat, |i: int| 0u8)
}

/// The digits in a placeholder are hexadecimal, and give back the padded content.
pub proof fn lemma_unhex_padded(der: Seq<u8>, capacity: nat)
    requires
        der.len() <= capacity,
    ensures
        unhex(hex(der) + zero_digits(2 * capacity - 2 * der.len())) == Some(padded(der, capacity)),
        forall|i: int|
            0 <= i < 2 * capacity ==> hex_value(
                #[trigger] (hex(der) + zero_digits(2 * capacity - 2 * der.len()))[i],
            ) is Some,
{
    let s = hex(der) + zero_digits(2 * capacity - 2 * der.len());
    assert(s.len() == 2 * capacity);
    assert forall|i: int| 0 <= i < s.len() implies hex_value(#[trigger] s[i]) is Some by {
        if i < 2 * der.len() {
            assert(s[i] == hex(der)[i]);
            assert(der[i / 2] as nat / 16 < 16);
        } else {
            assert(s[i] == 0x30);
        }
    }
    let v = unhex(s)->0;
    assert forall|i: int| 0 <= i < capacity implies #[trigger] v[i] == padded(der, capacity)[i] by {
        if i < der.len() {
            assert(s[2 * i] == hex(der)[2 * i] && s[2 * i + 1] == hex(der)[2 * i + 1]);
            assert((2 * i) / 2 == i && (2 * i + 1) / 2 == i);
            assert((2 * i) % 2 == 0 && (2 * i + 1) % 2 == 1);
        } else {
            assert(s[2 * i] == 0x30 && s[2 * i + 1] == 0x30);
        }
    }
    assert(v =~= padded(der, capacity));
}

/// The CMS in a padded placeholder is the one that was written, as long as its own
/// header gives its length.
pub proof fn law_padding_is_dropped(der: Seq<u8>, capacity: nat)
    requires
        0 < der.len() <= capacity,
        der[0] == 0x30,
        der_len(der) == Some(der.len() as int),
    ensures
        cms_in_contents(padded(der, capacity)) == Ok::<Seq<u8>, ErrorView>(der),
{
    let p = padded(der, capacity);
    assert(p[0] == der[0] && p[1] == der[1]);
    let n = der[1] - 0x80;
    if der[1] >= 0x80 {
        assert(p.subrange(2, 2 + n) =~= der.subrange(2, 2 + n));
    }
    assert(der_len(p) == Some(der.len() as int));
    assert(p.take(der.len() as int) =~= der);
}

/// A signature that was written into its placeholder is reported as what it is: its
/// byte range covers the whole document but for the placeholder, and it is valid
/// exactly if its CMS holds over the bytes that were signed.
#[verifier::rlimit(30)]
pub proof fn law_signature_reads_back(
    buf: Seq<u8>,
    lt: int,
    capacity: nat,
    der: Seq<u8>,
    is_timestamp: bool,
    store: StoreView,
    now: i64,
)
    requires
        0 <= lt,
        lt + 1 + 2 * capacity < buf.len() <= i64::MAX,
        buf[lt] == 0x3c,
        buf[lt + 1 + 2 * capacity] == 0x3e,
        0 < der.len() <= capacity,
        der[0] == 0x30,
        der_len(der) == Some(der.len() as int),
    ensures
        ({
            let file = filled(buf, lt, capacity, der)->Ok_0;
            let q = lt + 2 + 2 * capacity;
            let sig = SigView {
                byte_range: seq![0i64, lt as i64, q as i64, (buf.len() - q) as i64],
                contents: padded(der, capacity),
                is_timestamp,
            };
            &&& filled(buf, lt, capacity, der) is Ok
            &&& verified(file, sig, store, now) matches Ok(v) && v.covers_whole_document && v.valid == crypto_verdict(
                der,
                to_sign(buf, lt, capacity),
                is_timestamp,
            ).0 && v.signed_len == buf.len() - (q - lt)
        }),
{
    let file = filled(buf, lt, capacity, der)->Ok_0;
    let q = lt + 2 + 2 * capacity;
    let r = seq![0i64, lt as i64, q as i64, (buf.len() - q) as i64];
    law_fill_keeps_signed_bytes(buf, lt, capacity, der);
    law_padding_is_dropped(der, capacity);
    lemma_unhex_padded(der, capacity);
    assert(file.subrange(lt + 1, q - 1) =~= hex(der) + zero_digits(2 * capacity - 2 * der.len()));
    assert(file.subrange(0, lt) =~= file.take(lt));
    assert(file.subrange(q, file.len() as int) =~= file.skip(q));
    assert(signed_part(file, r) =~= outside(file, lt, q));
    assert(signed_part(file, r) == to_sign(buf, lt, capacity));
    assert(range_checked(r, file.len() as int) is Ok);
    assert(covers_document(file, r, padded(der, capacity)));
}

} // verus!
