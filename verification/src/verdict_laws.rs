//! What the report on a document says of each signature: which bytes it covers, and which
//! chain of certificates it is judged by, with what material and at what time.
use vstd::prelude::*;

use crate::certificate::{all_certificates, certificate_of, certificates_of, CertView};
use crate::der_laws::{der_value, lemma_der_parts, length_field, number_bytes};
use crate::dss::extracted;
use crate::error::{error_text, ErrorView};
use crate::locate::{signatures_of, SigView};
use crate::path_laws::{law_trust_needs_a_proper_path, proper_path};
use crate::revocation::{crls_of, ocsps_of, CrlView, OcspView};
use crate::signature_laws::{lemma_all_read, lemma_index, lemma_plain};
use crate::signed_data::{cms_choices, cms_of, detached_verdict, plain_certificates, signer_and_pool, signer_at, CmsView};
use crate::timestamp::{doc_timestamp_verdict, embedded_timestamp};
use crate::trust::{chain_verdict, store_of, Context, StoreView};
use crate::util::{hex_value, lit, unhex};
use crate::verify::{all_verified, cms_in_contents, ders_trusted, report_trusted, report_valid, reported, verified, VerifiedView};

verus! {

// ---------------------------------------------------------------------------
// The bytes of a signature

/// A byte range of two parts lies in a file.
pub open spec fn lies_in(r: Seq<i64>, pdf: Seq<u8>) -> bool {
    0 <= r[0] && 0 <= r[1] && 0 <= r[2] && 0 <= r[3] && r[0] + r[1] <= pdf.len() && r[2] + r[3] <= pdf.len()
}

/// A file is the first part of a byte range, a string in angle brackets and the second part.
pub open spec fn excludes(pdf: Seq<u8>, r: Seq<i64>, h: Seq<u8>) -> bool {
    pdf == pdf.take(r[1] as int) + seq![0x3cu8] + h + seq![0x3eu8] + pdf.skip(r[2] as int)
}

/// The value of a hexadecimal digit, of either case.
pub open spec fn is_digit_of(b: u8, v: int) -> bool {
    ||| 0x30 <= b <= 0x39 && v == b - 0x30
    ||| 0x41 <= b <= 0x46 && v == b - 0x41 + 10
    ||| 0x61 <= b <= 0x66 && v == b - 0x61 + 10
}

/// Two digits stand for a byte.
pub open spec fn digits_of(high: u8, low: u8, byte: u8) -> bool {
    exists|a: int, b: int| #[trigger] is_digit_of(high, a) && #[trigger] is_digit_of(low, b) && byte == 16 * a + b
}

/// A hexadecimal text stands for the bytes, two digits for each.
pub open spec fn spells(h: Seq<u8>, bytes: Seq<u8>) -> bool {
    &&& h.len() == 2 * bytes.len()
    &&& forall|i: int| 0 <= i < bytes.len() ==> digits_of(h[2 * i], h[2 * i + 1], #[trigger] bytes[i])
}

proof fn lemma_digits(high: u8, low: u8, byte: u8)
    ensures
        digits_of(high, low, byte) <==> hex_value(high) is Some && hex_value(low) is Some && byte == 16 * hex_value(
            high,
        )->0 + hex_value(low)->0,
{
    if digits_of(high, low, byte) {
        let (a, b) = choose|a: int, b: int|
            #[trigger] is_digit_of(high, a) && #[trigger] is_digit_of(low, b) && byte == 16 * a + b;
        assert(hex_value(high)->0 == a && hex_value(low)->0 == b);
    }
    if hex_value(high) is Some && hex_value(low) is Some && byte == 16 * hex_value(high)->0 + hex_value(low)->0 {
        assert(is_digit_of(high, hex_value(high)->0 as int) && is_digit_of(low, hex_value(low)->0 as int));
    }
}

/// A hexadecimal text is decoded exactly to the bytes that it spells.
pub proof fn law_hex_spells(h: Seq<u8>, bytes: Seq<u8>)
    ensures
        unhex(h) == Some(bytes) <==> spells(h, bytes),
{
    if unhex(h) == Some(bytes) {
        assert forall|i: int| 0 <= i < bytes.len() implies digits_of(h[2 * i], h[2 * i + 1], #[trigger] bytes[i]) by {
            assert(hex_value(h[2 * i]) is Some && hex_value(h[2 * i + 1]) is Some);
            lemma_digits(h[2 * i], h[2 * i + 1], bytes[i]);
        }
    }
    if spells(h, bytes) {
        assert forall|k: int| 0 <= k < h.len() implies hex_value(#[trigger] h[k]) is Some by {
            let i = k / 2;
            lemma_digits(h[2 * i], h[2 * i + 1], bytes[i]);
            assert(k == 2 * i || k == 2 * i + 1);
        }
        assert(h.len() % 2 == 0);
        assert(unhex(h) is Some);
        assert forall|i: int| 0 <= i < bytes.len() implies (#[trigger] unhex(h)->0[i]) == bytes[i] by {
            lemma_digits(h[2 * i], h[2 * i + 1], bytes[i]);
        }
        assert(unhex(h)->0 =~= bytes);
    }
}

/// A signature gets an entry exactly if its byte range lies in the file and its contents
/// begin with a CMS. The entry gives the byte range and the number of the bytes in it, and
/// says that the document is covered exactly if it is the two parts of the range and,
/// between them, the contents in hexadecimal digits and angle brackets.
pub proof fn law_entry_tells_its_bytes(pdf: Seq<u8>, sig: SigView, store: StoreView, now: i64)
    requires
        sig.byte_range.len() == 4,
    ensures
        verified(pdf, sig, store, now) is Ok <==> lies_in(sig.byte_range, pdf) && cms_in_contents(sig.contents) is Ok,
        verified(pdf, sig, store, now) matches Ok(v) ==> {
            let r = sig.byte_range;
            &&& v.byte_range == r
            &&& v.signed_len == r[1] + r[3]
            &&& v.covers_whole_document <==> r[0] == 0 && r[2] + r[3] == pdf.len() && exists|h: Seq<u8>|
                #[trigger] spells(h, sig.contents) && excludes(pdf, r, h)
        },
{
    let r = sig.byte_range;
    if let Ok(v) = verified(pdf, sig, store, now) {
        let (a, b) = (r[0] + r[1], r[2] as int);
        if v.covers_whole_document {
            let h = pdf.subrange(a + 1, b - 1);
            law_hex_spells(h, sig.contents);
            assert(pdf =~= pdf.take(a) + seq![0x3cu8] + h + seq![0x3eu8] + pdf.skip(b));
            assert(spells(h, sig.contents) && excludes(pdf, r, h));
        }
        if r[0] == 0 && r[2] + r[3] == pdf.len() && exists|h: Seq<u8>|
            #[trigger] spells(h, sig.contents) && excludes(pdf, r, h) {
            let h = choose|h: Seq<u8>| #[trigger] spells(h, sig.contents) && excludes(pdf, r, h);
            law_hex_spells(h, sig.contents);
            let whole = pdf.take(a) + seq![0x3cu8] + h + seq![0x3eu8] + pdf.skip(b);
            assert(whole.len() == a + 1 + h.len() + 1 + (pdf.len() - b));
            assert(b == a + h.len() + 2);
            assert(whole[a] == 0x3c && whole[b - 1] == 0x3e);
            assert(whole.subrange(a + 1, b - 1) =~= h);
        }
    }
}

/// The CMS in the contents of a signature is the DER sequence at their beginning, whatever
/// stands behind it.
pub proof fn law_padding_is_cut_off(content: Seq<u8>, padding: Seq<u8>)
    requires
        content.len() < 0x1_0000_0000,
        der_value(0x30, content).len() <= usize::MAX,
    ensures
        cms_in_contents(der_value(0x30, content) + padding) == Ok::<Seq<u8>, ErrorView>(der_value(0x30, content)),
{
    let der = der_value(0x30, content);
    let s = der + padding;
    let n = content.len();
    let f = length_field(n);
    lemma_der_parts(0x30, content);
    assert(der[1 + 0int] == f[0]);
    assert(s[0] == 0x30 && s[1] == f[0]);
    if n >= 0x80 {
        let k = number_bytes(n).len() as int;
        assert(s.subrange(2, 2 + k) =~= number_bytes(n)) by {
            assert forall|q: int| 0 <= q < k implies s[2 + q] == number_bytes(n)[q] by {
                assert(der[1 + (1 + q)] == f[1 + q]);
            }
        }
    }
    assert(s.take(der.len() as int) =~= der);
}

/// A document timestamp is valid exactly if its token is one of the bytes of its range; it
/// names no signer and gets no verdict on a chain.
pub proof fn law_timestamp_entry(pdf: Seq<u8>, sig: SigView, store: StoreView, now: i64)
    requires
        sig.is_timestamp,
    ensures
        verified(pdf, sig, store, now) matches Ok(v) ==> {
            let b = sig.byte_range;
            let data = pdf.subrange(b[0] as int, b[0] + b[1]) + pdf.subrange(b[2] as int, b[2] + b[3]);
            &&& v.valid <==> doc_timestamp_verdict(cms_in_contents(sig.contents)->Ok_0, data) is Ok
            &&& v.signer is None
            &&& v.chain_trusted is None
        },
{
}

// ---------------------------------------------------------------------------
// The chain of a signature

/// The signer's certificate is the one in the signed data that the signer identifier
/// names, and the candidates are all certificates in it.
pub proof fn law_signer_is_the_named_one(der: Seq<u8>, c: CmsView) -> (j: int)
    requires
        cms_of(der) == Ok::<CmsView, Seq<char>>(c),
        signer_and_pool(c) is Ok,
    ensures
        match (signer_at(der, 0), cms_choices(der), signer_and_pool(c)) {
            (Ok(Some(head)), Ok(Some(choices)), Ok((leaf, pool))) => {
                &&& 0 <= j < choices.len() && choices[j] is Some
                &&& certificate_of(choices[j]->0) == Ok::<CertView, Seq<char>>(leaf)
                &&& head.issuer_and_serial == Some((leaf.core.issuer, leaf.core.serial))
                &&& pool.contains(leaf)
                &&& forall|k: int|
                    0 <= k < choices.len() && (#[trigger] choices[k]) is Some ==> certificate_of(choices[k]->0) is Ok
                        && pool.contains(certificate_of(choices[k]->0)->Ok_0)
            },
            _ => false,
        },
{
    let head = signer_at(der, 0)->Ok_0->0;
    let choices = cms_choices(der)->Ok_0->0;
    let ders = plain_certificates(choices);
    let certs = crate::certificate::all_certificates(ders)->Ok_0;
    lemma_all_read(ders);
    let (issuer, serial) = head.issuer_and_serial->0;
    lemma_index(certs, issuer, serial, 0);
    let i = crate::signed_data::cert_index(certs, issuer, serial, 0)->0;
    assert(certificate_of(ders[i]) == Ok::<CertView, Seq<char>>(certs[i]));
    assert(certs.contains(certs[i]));
    assert forall|k: int| 0 <= k < choices.len() && (#[trigger] choices[k]) is Some implies certificate_of(
        choices[k]->0,
    ) is Ok && certs.contains(certificate_of(choices[k]->0)->Ok_0) by {
        let q = lemma_plain_has(choices, k);
        assert(certificate_of(ders[q]) == Ok::<CertView, Seq<char>>(certs[q]));
    }
    lemma_plain(choices, i)
}

/// Each certificate among the choices is taken.
pub proof fn lemma_plain_has(choices: Seq<Option<Seq<u8>>>, k: int) -> (q: int)
    requires
        0 <= k < choices.len(),
        choices[k] is Some,
    ensures
        0 <= q < plain_certificates(choices).len(),
        plain_certificates(choices)[q] == choices[k]->0,
    decreases choices.len(),
{
    let t = choices.drop_last();
    if k < t.len() {
        lemma_plain_has(t, k)
    } else {
        plain_certificates(t).len() as int
    }
}

/// The certificate of the authority behind an embedded timestamp is trusted at the present
/// time.
pub open spec fn authority_trusted(
    token: CmsView,
    store: StoreView,
    crls: Seq<CrlView>,
    ocsps: Seq<OcspView>,
    now: i64,
) -> bool {
    signer_and_pool(token) matches Ok((leaf, pool)) && chain_verdict(
        leaf,
        (Context { store, pool, crls, ocsps, at: now }),
    ).trusted
}

/// The time at which the chain of a signature is judged: that of its embedded timestamp
/// where the authority is trusted, otherwise the present time.
pub open spec fn judged_at(
    der: Seq<u8>,
    store: StoreView,
    crls: Seq<CrlView>,
    ocsps: Seq<OcspView>,
    now: i64,
    at: i64,
) -> bool {
    ||| at == now && embedded_timestamp(der) is Err
    ||| embedded_timestamp(der) matches Ok((t, token)) && if t <= i64::MAX && authority_trusted(
        token,
        store,
        crls,
        ocsps,
        now,
    ) {
        at == t
    } else {
        at == now
    }
}

/// Whether the chain of a signature is trusted is the verdict on the signer's certificate,
/// with the certificates in the signature as candidates and the CRLs and OCSP responses in
/// the document as material, at the time of a trusted timestamp or now. A signature whose
/// signer cannot be told is not trusted, and without roots there is no verdict.
pub proof fn law_chain_is_judged(pdf: Seq<u8>, sig: SigView, store: StoreView, now: i64, at: i64)
    requires
        verified(pdf, sig, store, now) is Ok,
        !sig.is_timestamp,
        judged_at(
            cms_in_contents(sig.contents)->Ok_0,
            store,
            crls_of(extracted(pdf, lit("CRLs"))),
            ocsps_of(extracted(pdf, lit("OCSPs"))),
            now,
            at,
        ),
    ensures
        ({
            let der = cms_in_contents(sig.contents)->Ok_0;
            let crls = crls_of(extracted(pdf, lit("CRLs")));
            let ocsps = ocsps_of(extracted(pdf, lit("OCSPs")));
            let trusted = verified(pdf, sig, store, now)->Ok_0.chain_trusted;
            &&& store.roots.len() == 0 <==> trusted is None
            &&& trusted == Some(true) <==> {
                &&& store.roots.len() > 0
                &&& cms_of(der) is Ok
                &&& signer_and_pool(cms_of(der)->Ok_0) matches Ok((leaf, pool)) && chain_verdict(
                    leaf,
                    (Context { store, pool, crls, ocsps, at }),
                ).trusted
            }
        }),
{
}

// ---------------------------------------------------------------------------
// The report

proof fn lemma_all_verified(pdf: Seq<u8>, sigs: Seq<SigView>, store: StoreView, now: i64)
    ensures
        all_verified(pdf, sigs, store, now) is Ok <==> forall|i: int|
            0 <= i < sigs.len() ==> verified(pdf, #[trigger] sigs[i], store, now) is Ok,
        all_verified(pdf, sigs, store, now) matches Ok(v) ==> v.len() == sigs.len() && forall|i: int|
            0 <= i < sigs.len() ==> verified(pdf, #[trigger] sigs[i], store, now) == Ok::<VerifiedView, ErrorView>(v[i]),
    decreases sigs.len(),
{
    if sigs.len() > 0 {
        let t = sigs.drop_last();
        lemma_all_verified(pdf, t, store, now);
        assert forall|i: int| 0 <= i < t.len() implies t[i] == #[trigger] sigs[i] by {}
        if forall|i: int| 0 <= i < sigs.len() ==> verified(pdf, #[trigger] sigs[i], store, now) is Ok {
            assert forall|i: int| 0 <= i < t.len() implies verified(pdf, #[trigger] t[i], store, now) is Ok by {
                assert(verified(pdf, sigs[i], store, now) is Ok);
            }
            assert(verified(pdf, sigs[sigs.len() - 1], store, now) is Ok);
        }
        if let Ok(v) = all_verified(pdf, sigs, store, now) {
            assert forall|i: int| 0 <= i < sigs.len() implies verified(pdf, #[trigger] sigs[i], store, now) == Ok::<
                VerifiedView,
                ErrorView,
            >(v[i]) by {
                if i < t.len() {
                    assert(verified(pdf, t[i], store, now) is Ok);
                }
            }
        }
    }
}

/// The report has one entry for each signature of the document, in the order of the file,
/// and there is none only if some signature gets no entry.
pub proof fn law_report_is_complete(pdf: Seq<u8>, store: StoreView, now: i64)
    ensures
        reported(pdf, store, now) is Ok <==> forall|i: int|
            0 <= i < signatures_of(pdf).len() ==> verified(pdf, #[trigger] signatures_of(pdf)[i], store, now) is Ok,
        reported(pdf, store, now) matches Ok(v) ==> v.len() == signatures_of(pdf).len() && forall|i: int|
            0 <= i < v.len() ==> verified(pdf, #[trigger] signatures_of(pdf)[i], store, now) == Ok::<
                VerifiedView,
                ErrorView,
            >(v[i]),
{
    lemma_all_verified(pdf, signatures_of(pdf), store, now);
}

/// One entry spoils a report: it is valid only if each entry is, and trusted only if no
/// chain is rejected. Entries without a verdict on their chain do no harm.
pub proof fn law_one_entry_spoils_the_report(s: Seq<VerifiedView>, e: VerifiedView)
    ensures
        report_valid(s.push(e)) <==> e.valid && (s.len() == 0 || report_valid(s)),
        report_trusted(s.push(e)) <==> e.valid && (e.chain_trusted is None || e.chain_trusted->0) && (s.len() == 0
            || report_trusted(s)),
{
    let t = s.push(e);
    assert(t[s.len() as int] == e);
    assert forall|i: int| 0 <= i < s.len() implies #[trigger] t[i] == s[i] by {}
    if report_valid(t) {
        assert forall|i: int| 0 <= i < s.len() implies (#[trigger] s[i]).valid by {
            assert(t[i].valid);
        }
    }
    if report_trusted(t) {
        assert forall|i: int| 0 <= i < s.len() implies (#[trigger] s[i]).chain_trusted != Some(false) by {
            assert(t[i].chain_trusted != Some(false));
        }
    }
}

// ---------------------------------------------------------------------------
// Certificates and stores in DER

/// A leaf in DER is trusted only on a proper path, from candidates of the pool and with no
/// certificate revoked by one of the CRLs.
pub proof fn law_path_in_der(
    leaf: Seq<u8>,
    pool: Seq<Seq<u8>>,
    crls: Seq<Seq<u8>>,
    store: StoreView,
    at: i64,
) -> (path: Seq<CertView>)
    requires
        ders_trusted(leaf, pool, crls, store, at),
    ensures
        path.len() >= 1 && certificate_of(leaf) == Ok::<CertView, Seq<char>>(path[0]),
        proper_path(
            path,
            (Context { store, pool: certificates_of(pool), crls: crls_of(crls), ocsps: Seq::empty(), at }),
        ),
{
    let cx = Context { store, pool: certificates_of(pool), crls: crls_of(crls), ocsps: Seq::empty(), at };
    law_trust_needs_a_proper_path(certificate_of(leaf)->Ok_0, cx)
}

/// Whether a leaf in DER is trusted is the verdict on its chain, with the certificates of
/// the pool as candidates and the CRLs as the only material.
pub proof fn law_verdict_in_der(leaf: Seq<u8>, pool: Seq<Seq<u8>>, crls: Seq<Seq<u8>>, store: StoreView, at: i64, c: CertView)
    requires
        certificate_of(leaf) == Ok::<CertView, Seq<char>>(c),
    ensures
        ders_trusted(leaf, pool, crls, store, at) <==> chain_verdict(
            c,
            (Context { store, pool: certificates_of(pool), crls: crls_of(crls), ocsps: Seq::empty(), at }),
        ).trusted,
{
}

/// A store holds the certificates that it is made of, in their order, and requires no
/// policy; it is made only if each of them can be read.
pub proof fn law_store_holds_its_roots(ders: Seq<Seq<u8>>)
    ensures
        store_of(ders) matches Ok(s) ==> s.required_policy is None && s.roots.len() == ders.len() && forall|i: int|
            0 <= i < ders.len() ==> certificate_of(#[trigger] ders[i]) == Ok::<CertView, Seq<char>>(s.roots[i]),
        store_of(ders) is Err <==> exists|i: int| 0 <= i < ders.len() && certificate_of(#[trigger] ders[i]) is Err,
{
    if all_certificates(ders) is Ok {
        lemma_all_read(ders);
    } else {
        lemma_one_fails(ders);
    }
}

proof fn lemma_one_fails(ders: Seq<Seq<u8>>)
    requires
        all_certificates(ders) is Err,
    ensures
        exists|i: int| 0 <= i < ders.len() && certificate_of(#[trigger] ders[i]) is Err,
    decreases ders.len(),
{
    if ders.len() > 0 {
        let t = ders.drop_last();
        if all_certificates(t) is Err {
            lemma_one_fails(t);
            let i = choose|i: int| 0 <= i < t.len() && certificate_of(#[trigger] t[i]) is Err;
            assert(certificate_of(ders[i]) is Err);
        } else {
            assert(certificate_of(ders[ders.len() - 1]) is Err);
        }
    }
}

/// What an entry says in words: that the signature is valid and whose it is, that the
/// timestamp is valid, or what is wrong; and, with a store, why the chain is trusted or not.
pub proof fn law_entry_says_what_was_found(pdf: Seq<u8>, sig: SigView, store: StoreView, now: i64)
    requires
        store.roots.len() == 0,
    ensures
        verified(pdf, sig, store, now) matches Ok(v) ==> {
            let der = cms_in_contents(sig.contents)->Ok_0;
            let b = sig.byte_range;
            let data = pdf.subrange(b[0] as int, b[0] + b[1]) + pdf.subrange(b[2] as int, b[2] + b[3]);
            &&& v.valid && sig.is_timestamp ==> v.detail == "valid document timestamp (RFC 3161)"@
            &&& v.valid && !sig.is_timestamp ==> v.signer is Some && v.detail == "valid CMS signature; signer: "@
                + v.signer->0
            &&& !v.valid ==> v.signer is None
            &&& !v.valid && !sig.is_timestamp ==> v.detail == error_text(detached_verdict(der, data)->Err_0)
            &&& !v.valid && sig.is_timestamp ==> v.detail == error_text(doc_timestamp_verdict(der, data)->Err_0)
        },
{
}

} // verus!
