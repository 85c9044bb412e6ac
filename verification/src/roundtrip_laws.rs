//! What signing and verifying promise together: a signature that was made is found and
//! reported valid, and stays so under every later update.
use vstd::prelude::*;

use crate::document::loaded;
use crate::error::ErrorView;
use crate::level_laws::{law_every_level_embeds_the_signature, law_scan_finds_prior_signatures};
use crate::locate::{
    holds_signature, law_signatures_are_found, name_end, scanned, signatures_of, skip_blanks, subfilter_in_front, SigView,
};
use crate::options::{PadesLevel, SignOptions};
use crate::placeholder::{filled, law_fill_keeps_signed_bytes};
use crate::placeholder_laws::{
    carries_at, law_placeholders_read_back, lemma_before_range_stays, no_range_between, placeholders_at, range_around,
};
use crate::report_laws::{lemma_placeholder_behind, lemma_signed_update, reported_valid};
use crate::sign::{
    embedded_cms, first_reply_keeps, first_signature, first_signature_holds, first_step, prepared, run, to_sign, StepView,
};
use crate::sign_laws::{begins_with, law_signature_reads_back, lemma_prepared_keeps, padded};
use crate::signer::{framed, keystore_of, owned, owner_name};
use crate::trust::StoreView;
use crate::update::{signature_items, signature_update};
use crate::update_laws::{
    law_signature_update_is_ready, lemma_plain_name, lemma_signature_names_are_plain, lemma_subfilter_is_plain,
    lemma_timestamp_names_are_plain, numbered, plain_name, ready, rewrites_no_range, subfilter_stands,
};
use crate::util::{first_from, last_in, lemma_first_from, lemma_last_upto, lemma_lit, lit, occurs_at};
use crate::verify::{crypto_verdict, signed_part, verified};
use crate::writer::{entry_bytes, is_regular, name_bytes};

verus! {

/// Any prior signature stays valid: what a signature over an original is reported as
/// does not change when the original is continued, but for the coverage of the whole
/// document and the verdict on the chain.
pub proof fn law_prior_signature_stays_valid(
    pdf: Seq<u8>,
    file: Seq<u8>,
    sig: SigView,
    store: StoreView,
    now: i64,
    later: i64,
)
    requires
        begins_with(file, pdf),
        verified(pdf, sig, store, now) is Ok,
    ensures
        verified(file, sig, store, later) is Ok,
        ({
            let v = verified(pdf, sig, store, now)->Ok_0;
            let w = verified(file, sig, store, later)->Ok_0;
            w.valid == v.valid && w.signer == v.signer && w.byte_range == v.byte_range && w.signed_len == v.signed_len
        }),
{
    let r = sig.byte_range;
    assert(signed_part(file, r) =~= signed_part(pdf, r)) by {
        assert forall|i: int| 0 <= i < pdf.len() implies file[i] == pdf[i] by {
            assert(file.take(pdf.len() as int)[i] == file[i]);
        }
    }
}

/// The signature of the dictionary at `p` as scanning reads it.
pub open spec fn signature_at(file: Seq<u8>, p: int, capacity: nat, der: Seq<u8>) -> SigView {
    SigView {
        byte_range: range_around(p + 58, capacity, file.len() as int),
        contents: padded(der, capacity),
        is_timestamp: subfilter_in_front(file, p) == Some(lit("ETSI.RFC3161")),
    }
}

proof fn lemma_name_end(s: Seq<u8>, i: int, e: int)
    requires
        0 <= i <= e < s.len(),
        forall|k: int| i <= k < e ==> is_regular(#[trigger] s[k]),
        s[e] == 0x20,
    ensures
        name_end(s, i) == e,
    decreases e - i,
{
    if i < e {
        assert(is_regular(s[i]));
        lemma_name_end(s, i + 1, e);
    }
}

proof fn lemma_subfilter_entry(subfilter: Seq<u8>)
    requires
        plain_name(subfilter),
    ensures
        ({
            let e = entry_bytes(lit("SubFilter"), name_bytes(subfilter));
            let n = subfilter.len() as int;
            &&& e.len() == n + 13
            &&& e.subrange(0, 10) == lit("/SubFilter")
            &&& e[10] == 0x20
            &&& e[11] == 0x2f
            &&& e.subrange(12, 12 + n) == subfilter
            &&& e[12 + n] == 0x20
        }),
{
    lemma_subfilter_is_plain();
    lemma_plain_name(lit("SubFilter"));
    lemma_plain_name(subfilter);
    reveal_strlit("SubFilter");
    reveal_strlit("/SubFilter");
    reveal_strlit(" ");
    lemma_lit("SubFilter");
    lemma_lit("/SubFilter");
    lemma_lit(" ");
    let e = entry_bytes(lit("SubFilter"), name_bytes(subfilter));
    assert(e.subrange(0, 10) =~= lit("/SubFilter"));
    assert(e.subrange(12, 12 + subfilter.len() as int) =~= subfilter);
}

/// The subfilter in front of a byte range is the one of the dictionary.
proof fn lemma_subfilter_reads(file: Seq<u8>, p: int, subfilter: Seq<u8>)
    requires
        p < file.len(),
        plain_name(subfilter),
        subfilter[0] != 0x53,
        subfilter_stands(file, p, subfilter),
    ensures
        subfilter_in_front(file, p) == Some(subfilter),
{
    lemma_subfilter_entry(subfilter);
    let e = entry_bytes(lit("SubFilter"), name_bytes(subfilter));
    let n = subfilter.len() as int;
    let pos = p - e.len();
    let needle = lit("/SubFilter");
    reveal_strlit("/SubFilter");
    lemma_lit("/SubFilter");
    let y = file.subrange(pos, p);
    assert(y == e);
    assert forall|i: int| 0 <= i < e.len() implies file[pos + i] == #[trigger] e[i] by {
        assert(y[i] == file[pos + i]);
    }
    let hay = file.take(p);
    lemma_last_upto(hay, needle, hay.len() - needle.len());
    assert(hay.subrange(pos, pos + 10) =~= e.subrange(0, 10));
    assert(occurs_at(hay, needle, pos));
    assert forall|j: int| pos < j <= p - 10 implies !#[trigger] occurs_at(hay, needle, j) by {
        if occurs_at(hay, needle, j) {
            assert(hay.subrange(j, j + 10)[0] == 0x2f && hay.subrange(j, j + 10)[1] == 0x53);
            assert(file[j] == 0x2f && file[j + 1] == 0x53);
            assert(file[pos + (j - pos)] == e[j - pos]);
            if j - pos < 10 {
                assert(e.subrange(0, 10)[j - pos] == needle[j - pos]);
            } else if j - pos >= 12 {
                assert(e.subrange(12, 12 + n)[j - pos - 12] == subfilter[j - pos - 12]);
                assert(is_regular(subfilter[j - pos - 12]));
            } else if j - pos == 11 {
                assert(file[pos + 12] == e[12]);
                assert(e.subrange(12, 12 + n)[0] == subfilter[0]);
            }
        }
    }
    assert(last_in(hay, needle) == Some(pos));
    assert(file[pos + 10] == e[10] && file[pos + 11] == e[11]);
    assert(skip_blanks(file, pos + 11) == pos + 11);
    assert(skip_blanks(file, pos + 10) == pos + 11);
    assert forall|k: int| pos + 12 <= k < pos + 12 + n implies is_regular(#[trigger] file[k]) by {
        assert(file[pos + (k - pos)] == e[k - pos]);
        assert(e.subrange(12, 12 + n)[k - pos - 12] == subfilter[k - pos - 12]);
    }
    assert(file[pos + (12 + n)] == e[12 + n]);
    lemma_name_end(file, pos + 12, pos + 12 + n);
    assert(file.subrange(pos + 12, pos + 12 + n) =~= e.subrange(12, 12 + n));
}

/// Scanning a file finds every signature that it carries.
pub proof fn law_scan_finds_signature(file: Seq<u8>, p: int, capacity: nat, der: Seq<u8>, from: int)
    requires
        0 <= from <= p,
        carries_at(file, p, capacity, der),
    ensures
        scanned(file, from).contains(signature_at(file, p, capacity, der)),
    decreases p - from,
{
    let needle = lit("/ByteRange");
    reveal_strlit("/ByteRange");
    lemma_lit("/ByteRange");
    lemma_first_from(file, needle, from);
    let br = first_from(file, needle, from)->0;
    assert(br <= p);
    let x = signature_at(file, p, capacity, der);
    let all = scanned(file, from);
    if br == p {
        assert(all[0] == x);
    } else {
        if p < br + 10 {
            assert(file.subrange(p, p + 10)[0] == needle[0]);
            assert(file.subrange(br, br + 10)[p - br] == needle[p - br]);
        }
        law_scan_finds_signature(file, p, capacity, der, br + 10);
        let rest = scanned(file, br + 10);
        let i = choose|i: int| 0 <= i < rest.len() && rest[i] == x;
        assert(all == rest || all[i + 1] == x);
        if all == rest {
            assert(all[i] == x);
        }
    }
}

/// What a file that was made ready and filled with a signature is reported as: scanning
/// finds the signature, and it covers the whole document and is valid exactly if it
/// holds over what was signed.
#[verifier::opaque]
pub open spec fn reported_from(
    v: Seq<u8>,
    lt: int,
    capacity: nat,
    der: Seq<u8>,
    is_timestamp: bool,
    store: StoreView,
    now: i64,
) -> bool {
    match filled(v, lt, capacity, der) {
        Ok(file) => {
            let sig = SigView {
                byte_range: range_around(lt, capacity, file.len() as int),
                contents: padded(der, capacity),
                is_timestamp,
            };
            &&& scanned(file, 0).contains(sig)
            &&& match verified(file, sig, store, now) {
                Ok(w) => w.covers_whole_document && w.valid == crypto_verdict(
                    der,
                    to_sign(v, lt, capacity),
                    is_timestamp,
                ).0,
                Err(_) => false,
            }
        },
        Err(_) => false,
    }
}

/// A signature that is written into a file that is ready for it is found by scanning
/// that file, and reported as what it is.
pub proof fn law_signed_file_reads_back(
    u: Seq<u8>,
    start: int,
    capacity: nat,
    subfilter: Seq<u8>,
    der: Seq<u8>,
    store: StoreView,
    now: i64,
)
    requires
        0 <= start,
        subfilter == lit("ETSI.CAdES.detached") || subfilter == lit("ETSI.RFC3161"),
        ready(u, start, capacity, subfilter),
        u.len() <= i64::MAX,
        prepared(u, capacity, start) is Ok,
        framed(der),
        der.len() <= capacity,
    ensures
        match prepared(u, capacity, start) {
            Ok((v, lt)) => reported_from(v, lt, capacity, der, subfilter == lit("ETSI.RFC3161"), store, now),
            Err(_) => false,
        },
{
    let p = choose|p: int|
        start <= p && #[trigger] placeholders_at(u, p, capacity) && no_range_between(u, start, p) && subfilter_stands(
            u,
            p,
            subfilter,
        );
    law_placeholders_read_back(u, start, p, capacity, der);
    let (v, lt) = prepared(u, capacity, start)->Ok_0;
    let file = filled(v, lt, capacity, der)->Ok_0;
    lemma_subfilter_stays(u, start, p, capacity, subfilter, der);
    lemma_reported(v, file, p, capacity, subfilter, der, store, now);
}

proof fn lemma_subfilter_stays(u: Seq<u8>, start: int, p: int, capacity: nat, subfilter: Seq<u8>, der: Seq<u8>)
    requires
        0 <= start <= p,
        subfilter == lit("ETSI.CAdES.detached") || subfilter == lit("ETSI.RFC3161"),
        placeholders_at(u, p, capacity),
        no_range_between(u, start, p),
        subfilter_stands(u, p, subfilter),
        u.len() <= i64::MAX,
        prepared(u, capacity, start) is Ok,
        der.len() <= capacity,
    ensures
        ({
            let (v, lt) = prepared(u, capacity, start)->Ok_0;
            let file = filled(v, lt, capacity, der)->Ok_0;
            subfilter_in_front(file, p) == Some(subfilter)
        }),
{
    law_placeholders_read_back(u, start, p, capacity, der);
    lemma_before_stays(u, start, p, capacity, der);
    let (v, lt) = prepared(u, capacity, start)->Ok_0;
    let file = filled(v, lt, capacity, der)->Ok_0;
    let e = entry_bytes(lit("SubFilter"), name_bytes(subfilter));
    assert(file.subrange(p - e.len(), p) =~= u.subrange(p - e.len(), p));
    lemma_subfilter_names(subfilter);
    lemma_subfilter_reads(file, p, subfilter);
}

proof fn lemma_subfilter_names(subfilter: Seq<u8>)
    requires
        subfilter == lit("ETSI.CAdES.detached") || subfilter == lit("ETSI.RFC3161"),
    ensures
        plain_name(subfilter),
        subfilter[0] == 0x45,
{
    lemma_signature_names_are_plain();
    lemma_timestamp_names_are_plain();
    reveal_strlit("ETSI.CAdES.detached");
    reveal_strlit("ETSI.RFC3161");
    lemma_lit("ETSI.CAdES.detached");
    lemma_lit("ETSI.RFC3161");
}

proof fn lemma_reported(
    v: Seq<u8>,
    file: Seq<u8>,
    p: int,
    capacity: nat,
    subfilter: Seq<u8>,
    der: Seq<u8>,
    store: StoreView,
    now: i64,
)
    requires
        0 <= p,
        p + 59 + 2 * capacity < v.len() <= i64::MAX,
        v[p + 58] == 0x3c,
        v[p + 59 + 2 * capacity] == 0x3e,
        framed(der),
        der.len() <= capacity,
        filled(v, p + 58, capacity, der) == Ok::<Seq<u8>, ErrorView>(file),
        carries_at(file, p, capacity, der),
        subfilter_in_front(file, p) == Some(subfilter),
    ensures
        reported_from(v, p + 58, capacity, der, subfilter == lit("ETSI.RFC3161"), store, now),
{
    law_fill_keeps_signed_bytes(v, p + 58, capacity, der);
    law_scan_finds_signature(file, p, capacity, der, 0);
    law_signature_reads_back(v, p + 58, capacity, der, subfilter == lit("ETSI.RFC3161"), store, now);
    reveal(reported_from);
}

proof fn lemma_before_stays(u: Seq<u8>, start: int, p: int, capacity: nat, der: Seq<u8>)
    requires
        0 <= start <= p,
        placeholders_at(u, p, capacity),
        no_range_between(u, start, p),
        u.len() <= i64::MAX,
        prepared(u, capacity, start) is Ok,
        der.len() <= capacity,
    ensures
        ({
            let (v, lt) = prepared(u, capacity, start)->Ok_0;
            let file = filled(v, lt, capacity, der)->Ok_0;
            forall|i: int| 0 <= i < p ==> #[trigger] file[i] == u[i]
        }),
{
    law_placeholders_read_back(u, start, p, capacity, der);
    lemma_before_range_stays(u, start, p, capacity);
    let (v, lt) = prepared(u, capacity, start)->Ok_0;
    let file = filled(v, lt, capacity, der)->Ok_0;
    assert forall|i: int| 0 <= i < p implies #[trigger] file[i] == u[i] by {
        assert(v.take(lt + 1)[i] == v[i]);
    }
}

/// A document that was signed verifies, at every level and whatever the replies are:
/// scanning the file finds a signature that is valid and names the owner of the keystore,
/// where the keystore's certificate belongs to its key; below B-LT it covers the whole
/// document. It is among the signatures of the file, unless the file parses to a document
/// without it. The document's own objects that the update writes anew must not hold the
/// text `/ByteRange`.
pub proof fn law_signed_document_verifies(
    pdf: Seq<u8>,
    p12: Seq<u8>,
    password: Seq<char>,
    opts: SignOptions,
    now: u64,
    replies: Seq<Result<Seq<u8>, ErrorView>>,
    file: Seq<u8>,
    store: StoreView,
    later: i64,
)
    requires
        run(first_step(pdf, p12, password, opts, now), replies) == StepView::Done(Ok(file)),
        first_signature_holds(pdf, p12, password, opts, now),
        first_reply_keeps(pdf, p12, password, opts, now, replies),
        file.len() <= i64::MAX,
        loaded(pdf) matches Ok(doc) ==> numbered(doc) && (signature_items(doc, opts) matches Ok((s, _, _))
            ==> rewrites_no_range(doc, s)),
        keystore_of(p12, password) matches Ok(Some(chain)) ==> owned(chain),
    ensures
        exists|sig: SigView| #[trigger]
            scanned(file, 0).contains(sig) && !sig.is_timestamp && holds_in(
                file,
                sig,
                store,
                later,
                owner_name(keystore_of(p12, password)->Ok_0->0),
            ) && (opts.pades_level.rank() < PadesLevel::Blt.rank() ==> verified(
                file,
                sig,
                store,
                later,
            )->Ok_0.covers_whole_document) && ((loaded(file) matches Ok(doc) ==> holds_signature(doc, sig))
                ==> signatures_of(file).contains(sig)),
{
    let doc = loaded(pdf)->Ok_0;
    let u = signature_update(pdf, doc, opts)->Ok_0;
    let capacity = opts.signature_capacity as nat;
    let (v, lt, cms) = first_signature(pdf, p12, password, opts, now)->0;
    let owner = owner_name(keystore_of(p12, password)->Ok_0->0);
    let sub = lit("ETSI.CAdES.detached");
    law_every_level_embeds_the_signature(pdf, p12, password, opts, now, replies, file);
    let w = embedded_cms(opts.pades_level, cms, replies)->0;
    let f = filled(v, lt, capacity, w)->Ok_0;
    law_signature_update_is_ready(pdf, doc, opts);
    lemma_lengths(u, pdf.len() as int, capacity, w);
    law_signed_file_reads_back(u, pdf.len() as int, capacity, sub, w, store, later);
    lemma_subfilters_differ();
    let sig = SigView {
        byte_range: range_around(lt, capacity, f.len() as int),
        contents: padded(w, capacity),
        is_timestamp: false,
    };
    assert(scanned(f, 0).contains(sig) && verified(f, sig, store, later) is Ok) by {
        reveal(reported_from);
    }
    lemma_signer_named(u, pdf.len() as int, v, lt, capacity, w, f, sig, store, later, owner);
    lemma_valid_holds(f, sig, store, later, owner);
    law_scan_finds_prior_signatures(f, file, 0, sig);
    law_prior_signature_stays_valid(f, file, sig, store, later, later);
    if loaded(file) matches Ok(doc) ==> holds_signature(doc, sig) {
        law_signatures_are_found(file, sig);
    }
}

/// A signature is valid in a file, and names its owner.
pub open spec fn holds_in(file: Seq<u8>, sig: SigView, store: StoreView, later: i64, owner: Seq<char>) -> bool {
    verified(file, sig, store, later) matches Ok(w) && w.valid && w.signer == Some(owner)
}

proof fn lemma_signer_named(
    u: Seq<u8>,
    start: int,
    v: Seq<u8>,
    lt: int,
    capacity: nat,
    w: Seq<u8>,
    f: Seq<u8>,
    sig: SigView,
    store: StoreView,
    later: i64,
    owner: Seq<char>,
)
    requires
        0 <= start < u.len(),
        ready(u, start, capacity, lit("ETSI.CAdES.detached")),
        prepared(u, capacity, start) == Ok::<(Seq<u8>, int), ErrorView>((v, lt)),
        filled(v, lt, capacity, w) == Ok::<Seq<u8>, ErrorView>(f),
        f.len() <= i64::MAX,
        framed(w),
        crate::signed_data::detached_verdict(w, to_sign(v, lt, capacity)) == Ok::<Seq<char>, ErrorView>(owner),
        sig == (SigView {
            byte_range: range_around(lt, capacity, f.len() as int),
            contents: padded(w, capacity),
            is_timestamp: false,
        }),
    ensures
        reported_valid(f, sig, store, later, owner),
{
    lemma_lengths(u, start, capacity, w);
    lemma_signed_update(u, start, capacity, v, lt, w, f, store, later, owner);
    lemma_placeholder_behind(u, capacity, start);
}

proof fn lemma_valid_holds(f: Seq<u8>, sig: SigView, store: StoreView, later: i64, owner: Seq<char>)
    requires
        reported_valid(f, sig, store, later, owner),
    ensures
        holds_in(f, sig, store, later, owner),
        verified(f, sig, store, later)->Ok_0.covers_whole_document,
{
    reveal(reported_valid);
}

/// Signatures and document timestamps have different subfilters.
pub proof fn lemma_subfilters_differ()
    ensures
        lit("ETSI.CAdES.detached") != lit("ETSI.RFC3161"),
{
    reveal_strlit("ETSI.CAdES.detached");
    reveal_strlit("ETSI.RFC3161");
    lemma_lit("ETSI.CAdES.detached");
    lemma_lit("ETSI.RFC3161");
}

/// Making a file ready and filling it keep its length.
pub proof fn lemma_lengths(u: Seq<u8>, start: int, capacity: nat, der: Seq<u8>)
    requires
        0 <= start <= u.len(),
    ensures
        prepared(u, capacity, start) matches Ok((v, lt)) ==> filled(v, lt, capacity, der) matches Ok(file) ==> file.len()
            == u.len() && der.len() <= capacity,
{
    if let Ok((v, lt)) = prepared(u, capacity, start) {
        assert(u.take(0) =~= Seq::empty());
        lemma_prepared_keeps(u, capacity, start, Seq::empty());
        if let Ok(file) = filled(v, lt, capacity, der) {
            law_fill_keeps_signed_bytes(v, lt, capacity, der);
        }
    }
}

} // verus!
