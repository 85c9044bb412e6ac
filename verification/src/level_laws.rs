//! What a run of signing promises at every level: the document that carries the signature
//! alone stands at the beginning of what comes out, and its signature is still found.
use vstd::prelude::*;

use crate::document::loaded;
use crate::error::ErrorView;
use crate::locate::{
    byte_range_in, contents_after, ends_name, is_blank, name_end, scanned, skip_blanks, subfilter_in_front, SigView,
};
use crate::options::{PadesLevel, SignOptions};
use crate::placeholder::filled;
use crate::sign::{
    embedded_cms, first_reply_keeps, first_signature, first_signature_holds, first_step, job_of, next_step, prepared,
    has_one_signer, run, stamp_keeps, stamped_reply, to_sign, with_cms, with_signature, JobView, PendingView, StepView,
};
use crate::sign_laws::{
    begins_with, law_levels_build_on_signature, law_resuming_keeps_original, lemma_prepared_keeps, step_keeps,
};
use crate::signed_data::detached_verdict;
use crate::signer::{framed, keystore_of, owned, owner_name};
use crate::update::signature_update;
use crate::util::{first_from, last_in, lemma_first_from, lemma_first_from_is, lemma_lit, lit, occurs_at};

verus! {

// ---------------------------------------------------------------------------
// Runs

/// Whatever the replies are, what comes out of a run begins with what its first step
/// keeps.
pub proof fn law_runs_keep_the_beginning(s: StepView, replies: Seq<Result<Seq<u8>, ErrorView>>, prefix: Seq<u8>)
    requires
        step_keeps(s, prefix),
    ensures
        step_keeps(run(s, replies), prefix),
    decreases replies.len(),
{
    if let StepView::Fetch(_, p) = s {
        if replies.len() > 0 {
            law_resuming_keeps_original(p, replies[0], prefix);
            law_runs_keep_the_beginning(next_step(p, replies[0]), replies.skip(1), prefix);
        }
    }
}

/// What a run that ends with a document has written into it: a CMS signature that is a DER
/// sequence and verifies over the bytes that are signed, at every level. The document
/// that carries it alone stands at the beginning of what comes out, and is all of it
/// below B-LT.
pub open spec fn signature_embedded(
    pdf: Seq<u8>,
    p12: Seq<u8>,
    password: Seq<char>,
    opts: SignOptions,
    now: u64,
    replies: Seq<Result<Seq<u8>, ErrorView>>,
    file: Seq<u8>,
) -> bool {
    let capacity = opts.signature_capacity as nat;
    match first_signature(pdf, p12, password, opts, now) {
        None => false,
        Some((v, lt, cms)) => match embedded_cms(opts.pades_level, cms, replies) {
            None => false,
            Some(w) => {
                &&& loaded(pdf) matches Ok(doc) && signature_update(pdf, doc, opts) matches Ok(u) && prepared(
                    u,
                    capacity,
                    pdf.len() as int,
                ) == Ok::<(Seq<u8>, int), ErrorView>((v, lt))
                &&& framed(w)
                &&& detached_verdict(w, to_sign(v, lt, capacity)) == Ok::<Seq<char>, ErrorView>(
                    owner_name(keystore_of(p12, password)->Ok_0->0),
                )
                &&& filled(v, lt, capacity, w) matches Ok(f) && begins_with(file, f) && (opts.pades_level.rank()
                    < PadesLevel::Blt.rank() ==> file == f)
            },
        },
    }
}

/// The signature of a document that was signed at any level holds: what the timestamp of
/// a reply leaves of it, and what a higher level adds, do not change its verdict.
pub proof fn law_every_level_embeds_the_signature(
    pdf: Seq<u8>,
    p12: Seq<u8>,
    password: Seq<char>,
    opts: SignOptions,
    now: u64,
    replies: Seq<Result<Seq<u8>, ErrorView>>,
    file: Seq<u8>,
)
    requires
        run(first_step(pdf, p12, password, opts, now), replies) == StepView::Done(Ok(file)),
        first_signature_holds(pdf, p12, password, opts, now),
        first_reply_keeps(pdf, p12, password, opts, now, replies),
        keystore_of(p12, password) matches Ok(Some(chain)) ==> owned(chain),
    ensures
        signature_embedded(pdf, p12, password, opts, now, replies, file),
{
    let capacity = opts.signature_capacity as nat;
    let (v, lt, cms) = first_signature(pdf, p12, password, opts, now)->0;
    lemma_run_starts(pdf, p12, password, opts, now, replies, file);
    let rest = later_replies(opts.pades_level, replies);
    lemma_readied(pdf, p12, password, opts, now);
    let w = embedded_cms(opts.pades_level, cms, replies)->0;
    lemma_levels(job_of(opts), v, lt, w, rest, file);
}

/// The replies that come behind the one to what the signature waits for.
pub open spec fn later_replies(
    level: PadesLevel,
    replies: Seq<Result<Seq<u8>, ErrorView>>,
) -> Seq<Result<Seq<u8>, ErrorView>> {
    if level.rank() < PadesLevel::Bt.rank() {
        replies
    } else {
        replies.skip(1)
    }
}

/// A run that ends with a document writes the signature into it first.
pub proof fn lemma_run_starts(
    pdf: Seq<u8>,
    p12: Seq<u8>,
    password: Seq<char>,
    opts: SignOptions,
    now: u64,
    replies: Seq<Result<Seq<u8>, ErrorView>>,
    file: Seq<u8>,
)
    requires
        run(first_step(pdf, p12, password, opts, now), replies) == StepView::Done(Ok(file)),
        first_signature_holds(pdf, p12, password, opts, now),
        first_reply_keeps(pdf, p12, password, opts, now, replies),
        keystore_of(p12, password) matches Ok(Some(chain)) ==> owned(chain),
    ensures
        match first_signature(pdf, p12, password, opts, now) {
            None => false,
            Some((v, lt, cms)) => match embedded_cms(opts.pades_level, cms, replies) {
                None => false,
                Some(w) => {
                    &&& framed(w)
                    &&& detached_verdict(w, to_sign(v, lt, opts.signature_capacity as nat)) == Ok::<
                        Seq<char>,
                        ErrorView,
                    >(owner_name(keystore_of(p12, password)->Ok_0->0))
                    &&& run(
                        with_signature(job_of(opts), v, lt, w),
                        later_replies(opts.pades_level, replies),
                    ) == StepView::Done(Ok(file))
                },
            },
        },
{
    lemma_first(pdf, p12, password, opts, now);
    let (v, lt, cms) = first_signature(pdf, p12, password, opts, now)->0;
    let data = to_sign(v, lt, opts.signature_capacity as nat);
    lemma_with_cms(job_of(opts), v, lt, cms, replies, file);
    let w = embedded_cms(opts.pades_level, cms, replies)->0;
    lemma_verdict(cms, w, data);
}

/// The signature that goes into the file is the one that was made, or that one with a
/// timestamp, which keeps what can be read of it.
pub proof fn lemma_embedded_keeps(
    pdf: Seq<u8>,
    p12: Seq<u8>,
    password: Seq<char>,
    opts: SignOptions,
    now: u64,
    replies: Seq<Result<Seq<u8>, ErrorView>>,
    file: Seq<u8>,
)
    requires
        run(first_step(pdf, p12, password, opts, now), replies) == StepView::Done(Ok(file)),
        first_signature_holds(pdf, p12, password, opts, now),
        first_reply_keeps(pdf, p12, password, opts, now, replies),
    ensures
        first_signature(pdf, p12, password, opts, now) matches Some((v, lt, cms)) && embedded_cms(
            opts.pades_level,
            cms,
            replies,
        ) matches Some(w) && has_one_signer(cms) && (w == cms || stamp_keeps(cms, w)),
{
    lemma_first(pdf, p12, password, opts, now);
    let (v, lt, cms) = first_signature(pdf, p12, password, opts, now)->0;
    lemma_with_cms(job_of(opts), v, lt, cms, replies, file);
}

proof fn lemma_first(pdf: Seq<u8>, p12: Seq<u8>, password: Seq<char>, opts: SignOptions, now: u64)
    ensures
        match first_signature(pdf, p12, password, opts, now) {
            Some((v, lt, cms)) => first_step(pdf, p12, password, opts, now) == with_cms(job_of(opts), v, lt, cms),
            None => first_step(pdf, p12, password, opts, now) matches StepView::Done(Err(_)),
        },
{
}

proof fn lemma_with_cms(
    job: JobView,
    v: Seq<u8>,
    lt: int,
    cms: Seq<u8>,
    replies: Seq<Result<Seq<u8>, ErrorView>>,
    file: Seq<u8>,
)
    requires
        run(with_cms(job, v, lt, cms), replies) == StepView::Done(Ok(file)),
    ensures
        embedded_cms(job.level, cms, replies) matches Some(w) && run(
            with_signature(job, v, lt, w),
            later_replies(job.level, replies),
        ) == StepView::Done(Ok(file)),
        job.level.rank() >= PadesLevel::Bt.rank() ==> replies.len() > 0 && with_cms(job, v, lt, cms) is Fetch && with_cms(
            job,
            v,
            lt,
            cms,
        )->Fetch_1 == (PendingView::SignatureStamp { job, buf: v, lt, cms }),
{
    let s = with_cms(job, v, lt, cms);
    lemma_run_step(s, replies);
    if job.level.rank() >= PadesLevel::Bt.rank() {
        lemma_stamp_step(job, v, lt, cms, replies[0]);
        let next = next_step(PendingView::SignatureStamp { job, buf: v, lt, cms }, replies[0]);
        lemma_run_step(next, replies.skip(1));
    }
}

/// One step of a run.
pub proof fn lemma_run_step(s: StepView, replies: Seq<Result<Seq<u8>, ErrorView>>)
    ensures
        match s {
            StepView::Done(_) => run(s, replies) == s,
            StepView::Fetch(_, p) => run(s, replies) == (if replies.len() == 0 {
                s
            } else {
                run(next_step(p, replies[0]), replies.skip(1))
            }),
        },
{
}

proof fn lemma_stamp_step(job: JobView, buf: Seq<u8>, lt: int, cms: Seq<u8>, reply: Result<Seq<u8>, ErrorView>)
    ensures
        match stamped_reply(cms, reply) {
            Some(w) => next_step(PendingView::SignatureStamp { job, buf, lt, cms }, reply) == with_signature(
                job,
                buf,
                lt,
                w,
            ),
            None => next_step(PendingView::SignatureStamp { job, buf, lt, cms }, reply) matches StepView::Done(Err(_)),
        },
{
}

/// A stamped signature by one signer keeps its verdict.
proof fn lemma_verdict(cms: Seq<u8>, w: Seq<u8>, data: Seq<u8>)
    requires
        w == cms || (stamp_keeps(cms, w) && has_one_signer(cms)),
    ensures
        detached_verdict(w, data) == detached_verdict(cms, data),
{
}

proof fn lemma_readied(pdf: Seq<u8>, p12: Seq<u8>, password: Seq<char>, opts: SignOptions, now: u64)
    requires
        first_signature(pdf, p12, password, opts, now) is Some,
    ensures
        ({
            let capacity = opts.signature_capacity as nat;
            let (v, lt, cms) = first_signature(pdf, p12, password, opts, now)->0;
            &&& loaded(pdf) matches Ok(doc) && signature_update(pdf, doc, opts) matches Ok(u) && prepared(
                u,
                capacity,
                pdf.len() as int,
            ) == Ok::<(Seq<u8>, int), ErrorView>((v, lt))
            &&& 0 <= lt && lt + 1 + 2 * capacity < v.len()
        }),
{
    let u = signature_update(pdf, loaded(pdf)->Ok_0, opts)->Ok_0;
    assert(u.take(0) =~= Seq::<u8>::empty());
    lemma_update_reaches(pdf, opts);
    lemma_prepared_keeps(u, opts.signature_capacity as nat, pdf.len() as int, Seq::empty());
}

/// What comes out of a run behind a signature begins with the file that carries it, and
/// is that file below B-LT.
proof fn lemma_levels(
    job: JobView,
    v: Seq<u8>,
    lt: int,
    w: Seq<u8>,
    rest: Seq<Result<Seq<u8>, ErrorView>>,
    file: Seq<u8>,
)
    requires
        0 <= lt,
        lt + 1 + 2 * job.capacity < v.len(),
        run(with_signature(job, v, lt, w), rest) == StepView::Done(Ok(file)),
    ensures
        filled(v, lt, job.capacity, w) matches Ok(f) && begins_with(file, f) && (job.level.rank()
            < PadesLevel::Blt.rank() ==> file == f),
{
    let s = with_signature(job, v, lt, w);
    assert(filled(v, lt, job.capacity, w) is Ok);
    law_levels_build_on_signature(job, v, lt, w);
    law_runs_keep_the_beginning(s, rest, filled(v, lt, job.capacity, w)->Ok_0);
}

proof fn lemma_update_reaches(pdf: Seq<u8>, opts: SignOptions)
    ensures
        loaded(pdf) matches Ok(doc) ==> signature_update(pdf, doc, opts) matches Ok(u) ==> pdf.len() < u.len(),
{
    if let Ok(doc) = loaded(pdf) {
        crate::report_laws::lemma_update_is_longer(pdf, doc, opts);
    }
}

// ---------------------------------------------------------------------------
// Scanning goes on

proof fn lemma_occurs_goes_on(pdf: Seq<u8>, file: Seq<u8>, needle: Seq<u8>, i: int)
    requires
        begins_with(file, pdf),
        i + needle.len() <= pdf.len(),
    ensures
        occurs_at(file, needle, i) == occurs_at(pdf, needle, i),
{
    if 0 <= i {
        assert(file.subrange(i, i + needle.len()) =~= file.take(pdf.len() as int).subrange(i, i + needle.len()));
    }
}

/// What is found first in a document is found first in its continuation.
proof fn lemma_first_goes_on(pdf: Seq<u8>, file: Seq<u8>, needle: Seq<u8>, from: int)
    requires
        begins_with(file, pdf),
        0 <= from,
    ensures
        first_from(pdf, needle, from) matches Some(i) ==> first_from(file, needle, from) == Some(i) && from <= i
            && i + needle.len() <= pdf.len(),
{
    lemma_first_from(pdf, needle, from);
    if let Some(i) = first_from(pdf, needle, from) {
        lemma_occurs_goes_on(pdf, file, needle, i);
        assert forall|j: int| from <= j < i implies !occurs_at(file, needle, j) by {
            lemma_occurs_goes_on(pdf, file, needle, j);
        }
        lemma_first_from_is(file, needle, from, i);
    }
}

proof fn lemma_skip_goes_on(pdf: Seq<u8>, file: Seq<u8>, i: int, e: int)
    requires
        begins_with(file, pdf),
        0 <= i <= e < pdf.len(),
        !is_blank(pdf[e]),
    ensures
        skip_blanks(file, i) == skip_blanks(pdf, i),
        i <= skip_blanks(pdf, i) <= e,
    decreases e - i,
{
    assert(file.take(pdf.len() as int)[i] == file[i]);
    if i < e && is_blank(pdf[i]) {
        lemma_skip_goes_on(pdf, file, i + 1, e);
    }
}

proof fn lemma_name_goes_on(pdf: Seq<u8>, file: Seq<u8>, i: int, e: int)
    requires
        begins_with(file, pdf),
        0 <= i <= e < pdf.len(),
        ends_name(pdf[e]),
    ensures
        name_end(file, i) == name_end(pdf, i),
        i <= name_end(pdf, i) <= e,
    decreases e - i,
{
    assert(file.take(pdf.len() as int)[i] == file[i]);
    if i < e && !ends_name(pdf[i]) {
        lemma_name_goes_on(pdf, file, i + 1, e);
    }
}

/// The subfilter in front of a byte range with a bracket behind it is the same in a
/// continuation.
proof fn lemma_subfilter_goes_on(pdf: Seq<u8>, file: Seq<u8>, br: int, open: int)
    requires
        begins_with(file, pdf),
        0 <= br < open < pdf.len(),
        pdf[br] == 0x2f,
        pdf[open] == 0x5b,
    ensures
        subfilter_in_front(file, br) == subfilter_in_front(pdf, br),
{
    let needle = lit("/SubFilter");
    assert(file.take(br) =~= pdf.take(br)) by {
        assert(file.take(br) =~= file.take(pdf.len() as int).take(br));
    }
    crate::util::lemma_last_upto(pdf.take(br), needle, br - needle.len());
    if let Some(pos) = last_in(pdf.take(br), needle) {
        let first = pos + needle.len();
        lemma_skip_goes_on(pdf, file, first, br);
        let j = skip_blanks(pdf, first);
        assert(file.take(pdf.len() as int)[j] == file[j]);
        if pdf[j] == 0x2f {
            lemma_name_goes_on(pdf, file, j + 1, open);
            let e = name_end(pdf, j + 1);
            assert(file.subrange(j + 1, e) =~= pdf.subrange(j + 1, e)) by {
                assert(file.subrange(j + 1, e) =~= file.take(pdf.len() as int).subrange(j + 1, e));
            }
        }
    }
}

proof fn lemma_entry_goes_on(pdf: Seq<u8>, file: Seq<u8>, br: int)
    requires
        begins_with(file, pdf),
        occurs_at(pdf, lit("/ByteRange"), br),
        byte_range_in(pdf.skip(br)) is Ok,
        contents_after(pdf, br) is Some,
    ensures
        byte_range_in(file.skip(br)) == byte_range_in(pdf.skip(br)),
        contents_after(file, br) == contents_after(pdf, br),
        subfilter_in_front(file, br) == subfilter_in_front(pdf, br),
{
    reveal_strlit("/ByteRange");
    reveal_strlit("[");
    reveal_strlit("]");
    reveal_strlit("<");
    reveal_strlit(">");
    lemma_lit("/ByteRange");
    lemma_lit("[");
    lemma_lit("]");
    lemma_lit("<");
    lemma_lit(">");
    let (a, b) = (pdf.skip(br), file.skip(br));
    assert(b.take(a.len() as int) =~= a) by {
        assert(b.take(a.len() as int) =~= file.take(pdf.len() as int).skip(br));
    }
    lemma_first_goes_on(a, b, lit("["), 0);
    let open = first_from(a, lit("["), 0)->0;
    lemma_first_from(a, lit("["), 0);
    lemma_first_goes_on(a, b, lit("]"), open);
    let close = first_from(a, lit("]"), open)->0;
    lemma_first_from(a, lit("]"), open);
    assert(a.subrange(open, open + 1)[0] == lit("[")[0]);
    assert(a.subrange(close, close + 1)[0] == lit("]")[0]);
    assert(b.subrange(open + 1, close) =~= a.subrange(open + 1, close)) by {
        assert(b.subrange(open + 1, close) =~= b.take(a.len() as int).subrange(open + 1, close));
    }
    lemma_first_goes_on(pdf, file, lit("/Contents"), br);
    let from = first_from(pdf, lit("/Contents"), br)->0;
    lemma_first_goes_on(pdf, file, lit("<"), from);
    let lt = first_from(pdf, lit("<"), from)->0;
    lemma_first_goes_on(pdf, file, lit(">"), lt);
    let gt = first_from(pdf, lit(">"), lt)->0;
    lemma_first_from(pdf, lit("<"), from);
    lemma_first_from(pdf, lit(">"), lt);
    assert(pdf.subrange(lt, lt + 1)[0] == lit("<")[0]);
    assert(pdf.subrange(gt, gt + 1)[0] == lit(">")[0]);
    assert(file.subrange(lt + 1, gt) =~= pdf.subrange(lt + 1, gt)) by {
        assert(file.subrange(lt + 1, gt) =~= file.take(pdf.len() as int).subrange(lt + 1, gt));
    }
    assert(pdf.subrange(br, br + 10)[0] == lit("/ByteRange")[0]);
    assert(pdf[br + open] == 0x5b);
    lemma_subfilter_goes_on(pdf, file, br, br + open);
}

/// Scanning finds in a continued document every signature that it finds in the document,
/// with the same byte range and the same contents.
pub proof fn law_scan_finds_prior_signatures(pdf: Seq<u8>, file: Seq<u8>, from: int, sig: SigView)
    requires
        begins_with(file, pdf),
        0 <= from,
        scanned(pdf, from).contains(sig),
    ensures
        scanned(file, from).contains(sig),
    decreases pdf.len() - from,
{
    let needle = lit("/ByteRange");
    reveal_strlit("/ByteRange");
    lemma_lit("/ByteRange");
    lemma_first_from(pdf, needle, from);
    lemma_first_goes_on(pdf, file, needle, from);
    let br = first_from(pdf, needle, from)->0;
    let (before, after) = (scanned(pdf, from), scanned(file, from));
    let (old_rest, new_rest) = (scanned(pdf, br + 10), scanned(file, br + 10));
    let k = choose|k: int| 0 <= k < before.len() && before[k] == sig;
    let found = byte_range_in(pdf.skip(br)) is Ok && contents_after(pdf, br) is Some;
    if found {
        lemma_entry_goes_on(pdf, file, br);
        assert(after[0] == before[0]);
    }
    if found && k == 0 {
        assert(after[0] == sig);
    } else {
        assert(old_rest[if found { k - 1 } else { k }] == sig);
        law_scan_finds_prior_signatures(pdf, file, br + 10, sig);
        let i = choose|i: int| 0 <= i < new_rest.len() && new_rest[i] == sig;
        if byte_range_in(file.skip(br)) is Ok && contents_after(file, br) is Some {
            assert(after[i + 1] == sig);
        } else {
            assert(after[i] == sig);
        }
    }
}

} // verus!
