//! What the higher levels ask for, where they ask, and what they make of the replies.
use vstd::prelude::*;

use crate::certificate::{certificate_of, certificates_of, CertView};
use crate::der_laws::der_value;
use crate::digest::sha256;
use crate::dss::{dss_appended, MaterialView};
use crate::error::ErrorView;
use crate::http::starts_with;
use crate::material::{
    all_crl_urls, crl_urls_of, http_uris, http_uris_in, issuer_index, material_certs, ocsp_location, ocsp_queries, ocsp_query,
    ocsp_request, ocsp_successful, ocsp_url_of,
};
use crate::names::NameView;
use crate::options::{PadesLevel, SignOptions};
use crate::placeholder::filled;
use crate::sign::{
    collection_for, document_stamp_step, first_signature, first_step, next_step, with_signature, CollectionView, JobView,
    PendingView, RequestView, StepView,
};
use crate::signature_laws::hash_arc;
use crate::signed_data::{cms_choices, plain_certificates, signer_at, timestamp_token, HeadView};
use crate::sorting::{increasing, law_sorted, sorted};
use crate::trust_laws::lemma_certificates_of;
use crate::tsa::{timestamp_request, token_in_reply};
use crate::util::law_distinct;

verus! {

// ---------------------------------------------------------------------------
// Timestamps

/// The request for a timestamp as DER writes it: version one, the SHA-256 hash, and the
/// wish for the authority's certificate.
pub open spec fn asks_for(hash: Seq<u8>) -> Seq<u8> {
    der_value(
        0x30,
        der_value(0x02, seq![0x01u8]) + der_value(
            0x30,
            der_value(0x30, der_value(0x06, hash_arc(1))) + der_value(0x04, hash),
        ) + der_value(0x01, seq![0xffu8]),
    )
}

/// A request to an authority for a timestamp over data.
pub open spec fn asks_authority(r: RequestView, url: Seq<char>, data: Seq<u8>) -> bool {
    &&& r.url == url
    &&& r.content_type == Some("application/timestamp-query"@)
    &&& sha256(data).len() == 32 ==> r.body == asks_for(sha256(data))
}

proof fn lemma_short(tag: u8, content: Seq<u8>)
    requires
        content.len() < 0x80,
    ensures
        crate::der_reader::short_value(tag, content) == der_value(tag, content),
        der_value(tag, content).len() == 2 + content.len(),
{
    reveal(der_value);
    assert(crate::der_reader::short_value(tag, content) =~= der_value(tag, content));
}

proof fn lemma_request(hash: Seq<u8>)
    requires
        hash.len() == 32,
    ensures
        timestamp_request(hash) == asks_for(hash),
{
    assert(hash_arc(1) =~= crate::oids::sha256_oid());
    let oid = hash_arc(1);
    lemma_short(0x06, oid);
    lemma_short(0x30, der_value(0x06, oid));
    lemma_short(0x04, hash);
    let imprint = der_value(0x30, der_value(0x06, oid)) + der_value(0x04, hash);
    lemma_short(0x30, imprint);
    lemma_short(0x02, seq![0x01u8]);
    lemma_short(0x01, seq![0xffu8]);
    assert(crate::der_reader::short_value(0x02, seq![0x01u8]) =~= seq![0x02u8, 0x01u8, 0x01u8]);
    assert(crate::der_reader::short_value(0x01, seq![0xffu8]) =~= seq![0x01u8, 0x01u8, 0xffu8]);
    lemma_short(0x30, der_value(0x02, seq![0x01u8]) + der_value(0x30, imprint) + der_value(0x01, seq![0xffu8]));
}

/// Above the baseline, what was signed is stamped first: the authority is asked for a
/// timestamp over the signature value.
pub proof fn law_signature_value_is_stamped(
    pdf: Seq<u8>,
    p12: Seq<u8>,
    password: Seq<char>,
    opts: SignOptions,
    now: u64,
    head: HeadView,
)
    requires
        opts.pades_level != PadesLevel::Bb,
        opts.tsa_url is Some,
        first_signature(pdf, p12, password, opts, now) matches Some((_, _, cms)) && signer_at(cms, 0) == Ok::<
            Option<HeadView>,
            Seq<char>,
        >(Some(head)),
    ensures
        first_step(pdf, p12, password, opts, now) matches StepView::Fetch(r, p) && asks_authority(
            r,
            opts.tsa_url->0@,
            head.signature,
        ) && p is SignatureStamp,
{
    if sha256(head.signature).len() == 32 {
        lemma_request(sha256(head.signature));
    }
}

/// A document timestamp is asked for over all bytes of the file but those of its
/// placeholder.
pub proof fn law_document_is_stamped(pdf: Seq<u8>, url: Seq<char>, capacity: nat)
    ensures
        document_stamp_step(pdf, url, capacity) matches StepView::Fetch(r, p) ==> {
            &&& p matches PendingView::DocumentStamp { buf, lt, capacity: c } && c == capacity && asks_authority(
                r,
                url,
                buf.take(lt) + buf.skip(lt + 2 + 2 * capacity),
            )
        },
{
    if let StepView::Fetch(r, p) = document_stamp_step(pdf, url, capacity) {
        if let PendingView::DocumentStamp { buf, lt, capacity: c } = p {
            let data = buf.take(lt) + buf.skip(lt + 2 + 2 * capacity);
            if sha256(data).len() == 32 {
                lemma_request(sha256(data));
            }
        }
    }
}

/// Each level does what it promises with a signature that is in place: the first two are
/// done, and the long-term ones go on to the validation material.
pub proof fn law_what_levels_do(job: JobView, buf: Seq<u8>, lt: int, cms: Seq<u8>)
    ensures
        match filled(buf, lt, job.capacity, cms) {
            Err(e) => with_signature(job, buf, lt, cms) == StepView::Done(Err(e)),
            Ok(v) => match job.level {
                PadesLevel::Bb => with_signature(job, buf, lt, cms) == StepView::Done(Ok(v)),
                PadesLevel::Bt => with_signature(job, buf, lt, cms) == StepView::Done(Ok(v)),
                _ => match material_certs(cms) {
                    Err(e) => with_signature(job, buf, lt, cms) == StepView::Done(Err(e)),
                    Ok(certs) => {
                        let c = collection_for(certs);
                        if c.urls.len() + c.queries.len() > 0 {
                            with_signature(job, buf, lt, cms) matches StepView::Fetch(_, p) && p
                                == (PendingView::Material { job, buf: v, collection: c })
                        } else {
                            ends_with_material(job, v, certs, Seq::empty(), Seq::empty(), with_signature(job, buf, lt, cms))
                        }
                    },
                },
            },
        },
{
    law_sorted(Seq::empty());
}

/// With all material at hand it is embedded, and the archival level goes on to a timestamp
/// of the document.
pub open spec fn ends_with_material(
    job: JobView,
    buf: Seq<u8>,
    certs: Seq<Seq<u8>>,
    crls: Seq<Seq<u8>>,
    ocsps: Seq<Seq<u8>>,
    s: StepView,
) -> bool {
    match dss_appended(buf, (MaterialView { certs, crls: sorted(crls), ocsps: sorted(ocsps) })) {
        Err(e) => s == StepView::Done(Err(e)),
        Ok(v) => match job.level {
            PadesLevel::Blta => match job.tsa_url {
                None => s matches StepView::Done(Err(_)),
                Some(url) => s == document_stamp_step(v, url, job.capacity),
            },
            _ => s == StepView::Done(Ok(v)),
        },
    }
}

/// A reply is kept: the CRLs and OCSP responses of a collection after it.
pub open spec fn kept(c: CollectionView, reply: Result<Seq<u8>, ErrorView>) -> (Seq<Seq<u8>>, Seq<Seq<u8>>) {
    match reply {
        Err(_) => (c.crls, c.ocsps),
        Ok(b) => if c.next < c.urls.len() {
            (if b.len() > 0 && b[0] == 0x30 { c.crls.push(b) } else { c.crls }, c.ocsps)
        } else {
            (c.crls, if ocsp_successful(b) == Some(true) { c.ocsps.push(b) } else { c.ocsps })
        },
    }
}

/// What is fetched is asked for one by one, the CRLs by their URLs and then the OCSP
/// responses by their requests. A reply is kept if it is what was asked for, and with the
/// last one the material is embedded, each piece once and in order.
pub proof fn law_material_is_fetched(job: JobView, buf: Seq<u8>, c: CollectionView, reply: Result<Seq<u8>, ErrorView>)
    requires
        c.next < c.urls.len() + c.queries.len(),
    ensures
        ({
            let s = next_step(PendingView::Material { job, buf, collection: c }, reply);
            let (crls, ocsps) = kept(c, reply);
            let n = c.next as int + 1;
            if n < c.urls.len() + c.queries.len() {
                s matches StepView::Fetch(r, p) && p == (PendingView::Material {
                    job,
                    buf,
                    collection: (CollectionView { crls, ocsps, next: n as nat, ..c }),
                }) && if n < c.urls.len() {
                    r.url == c.urls[n] && r.content_type is None && r.body.len() == 0
                } else {
                    r.url == c.queries[n - c.urls.len()].0 && r.body == c.queries[n - c.urls.len()].1 && r.content_type
                        == Some("application/ocsp-request"@)
                }
            } else {
                ends_with_material(job, buf, c.certs, crls, ocsps, s)
            }
        }),
{
}

/// A reply with a token is stamped into the signature; without one signing ends.
pub proof fn law_token_is_embedded(job: JobView, buf: Seq<u8>, lt: int, cms: Seq<u8>, reply: Result<Seq<u8>, ErrorView>)
    ensures
        ({
            let s = next_step(PendingView::SignatureStamp { job, buf, lt, cms }, reply);
            &&& reply matches Err(e) ==> s == StepView::Done(Err(e))
            &&& reply matches Ok(b) ==> match token_in_reply(b) {
                Err(e) => s == StepView::Done(Err(e)),
                Ok(token) => match crate::signer::with_unsigned_attribute(
                    cms,
                    0,
                    crate::time_laws::time_stamp_token_arc(),
                    token,
                ) {
                    Ok(w) => signer_at(cms, 0) matches Ok(Some(_)) ==> s == with_signature(job, buf, lt, w),
                    Err(_) => s matches StepView::Done(Err(_)),
                },
            }
        }),
        ({
            let s = next_step(PendingView::DocumentStamp { buf, lt, capacity: job.capacity }, reply);
            &&& reply matches Err(e) ==> s == StepView::Done(Err(e))
            &&& reply matches Ok(b) ==> match token_in_reply(b) {
                Err(e) => s == StepView::Done(Err(e)),
                Ok(token) => s == StepView::Done(filled(buf, lt, job.capacity, token)),
            }
        }),
{
    assert(crate::time_laws::time_stamp_token_arc() =~= crate::oids::time_stamp_token_oid());
}

// ---------------------------------------------------------------------------
// Validation material

/// The signed data in the bytes holds a certificate.
pub open spec fn holds_certificate(cms: Seq<u8>, cert: Seq<u8>) -> bool {
    cms_choices(cms) matches Ok(Some(choices)) && choices.contains(Some(cert))
}

proof fn lemma_plain_contains(choices: Seq<Option<Seq<u8>>>, x: Seq<u8>)
    ensures
        plain_certificates(choices).contains(x) <==> choices.contains(Some(x)),
{
    let p = plain_certificates(choices);
    if p.contains(x) {
        let i = choose|i: int| 0 <= i < p.len() && p[i] == x;
        let j = crate::signature_laws::lemma_plain(choices, i);
    }
    if choices.contains(Some(x)) {
        let k = choose|k: int| 0 <= k < choices.len() && choices[k] == Some(x);
        let q = crate::verdict_laws::lemma_plain_has(choices, k);
    }
}

/// The certificates that are embedded are those of the signature and those of its
/// timestamp, each once and in lexicographic order.
pub proof fn law_certificates_to_embed(cms: Seq<u8>, x: Seq<u8>)
    ensures
        material_certs(cms) matches Ok(v) ==> {
            &&& increasing(v)
            &&& v.contains(x) <==> holds_certificate(cms, x) || (timestamp_token(cms) matches Ok(Some(token))
                && holds_certificate(token, x))
        },
{
    if let Ok(v) = material_certs(cms) {
        let own = crate::material::certs_in(cms)->Ok_0;
        law_sorted(own);
        if let Ok(Some(choices)) = cms_choices(cms) {
            lemma_plain_contains(choices, x);
        }
        if let Ok(Some(token)) = timestamp_token(cms) {
            let more = crate::material::certs_in(token)->Ok_0;
            law_sorted(own + more);
            if let Ok(Some(choices)) = cms_choices(token) {
                lemma_plain_contains(choices, x);
            }
            if own.contains(x) {
                let k = choose|k: int| 0 <= k < own.len() && own[k] == x;
                assert((own + more)[k] == x);
            }
            if more.contains(x) {
                let k = choose|k: int| 0 <= k < more.len() && more[k] == x;
                assert((own + more)[own.len() + k] == x);
            }
            if (own + more).contains(x) {
                let k = choose|k: int| 0 <= k < (own + more).len() && (own + more)[k] == x;
                if k < own.len() {
                    assert(own[k] == x);
                } else {
                    assert(more[k - own.len()] == x);
                }
            }
        }
    }
}

/// A URL over plain HTTP.
pub open spec fn is_http(u: Seq<char>) -> bool {
    u.len() >= 7 && u.take(7) == "http://"@
}

proof fn lemma_is_http(u: Seq<char>)
    ensures
        starts_with(u, "http://"@) <==> is_http(u),
{
    reveal_strlit("http://");
    if u.len() >= 7 {
        assert(u.subrange(0, 7) =~= u.take(7));
    }
}

/// A certificate names a URL among its distribution points.
pub open spec fn names_point(cert: CertView, l: int, k: int, u: Seq<char>) -> bool {
    cert.crl_points matches Some(lists) && 0 <= l < lists.len() && 0 <= k < lists[l].len() && lists[l][k]
        == NameView::Uri(u)
}

proof fn lemma_http_uris(names: Seq<NameView>, u: Seq<char>)
    ensures
        http_uris(names).contains(u) <==> is_http(u) && names.contains(NameView::Uri(u)),
    decreases names.len(),
{
    if names.len() > 0 {
        let t = names.drop_last();
        lemma_http_uris(t, u);
        let (all, rest) = (http_uris(names), http_uris(t));
        if let NameView::Uri(w) = names.last() {
            lemma_is_http(w);
        }
        if all.contains(u) {
            let q = choose|q: int| 0 <= q < all.len() && all[q] == u;
            if q < rest.len() {
                assert(rest[q] == u);
                assert(rest.contains(u));
                let k = choose|k: int| 0 <= k < t.len() && t[k] == NameView::Uri(u);
                assert(names[k] == NameView::Uri(u));
            } else {
                assert(names[names.len() - 1] == NameView::Uri(u));
            }
        }
        if is_http(u) && names.contains(NameView::Uri(u)) {
            let k = choose|k: int| 0 <= k < names.len() && names[k] == NameView::Uri(u);
            if k < t.len() {
                assert(t[k] == NameView::Uri(u));
                assert(t.contains(NameView::Uri(u)));
                let q = choose|q: int| 0 <= q < rest.len() && rest[q] == u;
                assert(all[q] == u);
            } else {
                assert(all[all.len() - 1] == u);
            }
        }
    }
}

proof fn lemma_http_uris_in(lists: Seq<Seq<NameView>>, u: Seq<char>)
    ensures
        http_uris_in(lists).contains(u) <==> is_http(u) && exists|l: int|
            0 <= l < lists.len() && (#[trigger] lists[l]).contains(NameView::Uri(u)),
    decreases lists.len(),
{
    if lists.len() > 0 {
        let t = lists.drop_last();
        lemma_http_uris_in(t, u);
        lemma_http_uris(lists.last(), u);
        let (a, b) = (http_uris_in(t), http_uris(lists.last()));
        let all = http_uris_in(lists);
        if all.contains(u) {
            let q = choose|q: int| 0 <= q < all.len() && all[q] == u;
            if q < a.len() {
                assert(a[q] == u);
                let l = choose|l: int| 0 <= l < t.len() && (#[trigger] t[l]).contains(NameView::Uri(u));
                assert(lists[l].contains(NameView::Uri(u)));
            } else {
                assert(b[q - a.len()] == u);
                assert(lists[lists.len() - 1].contains(NameView::Uri(u)));
            }
        }
        if is_http(u) && exists|l: int| 0 <= l < lists.len() && (#[trigger] lists[l]).contains(NameView::Uri(u)) {
            let l = choose|l: int| 0 <= l < lists.len() && (#[trigger] lists[l]).contains(NameView::Uri(u));
            if l < t.len() {
                assert(t[l].contains(NameView::Uri(u)));
                let q = choose|q: int| 0 <= q < a.len() && a[q] == u;
                assert(all[q] == u);
            } else {
                let q = choose|q: int| 0 <= q < b.len() && b[q] == u;
                assert(all[a.len() + q] == u);
            }
        }
    }
}

proof fn lemma_all_crl_urls(certs: Seq<CertView>, u: Seq<char>)
    ensures
        all_crl_urls(certs).contains(u) <==> exists|i: int|
            0 <= i < certs.len() && crl_urls_of(#[trigger] certs[i]).contains(u),
    decreases certs.len(),
{
    if certs.len() > 0 {
        let t = certs.drop_last();
        lemma_all_crl_urls(t, u);
        let (a, b) = (all_crl_urls(t), crl_urls_of(certs.last()));
        let all = all_crl_urls(certs);
        if all.contains(u) {
            let q = choose|q: int| 0 <= q < all.len() && all[q] == u;
            if q < a.len() {
                assert(a[q] == u);
                let i = choose|i: int| 0 <= i < t.len() && crl_urls_of(#[trigger] t[i]).contains(u);
                assert(crl_urls_of(certs[i]).contains(u));
            } else {
                assert(b[q - a.len()] == u);
                assert(crl_urls_of(certs[certs.len() - 1]).contains(u));
            }
        }
        if exists|i: int| 0 <= i < certs.len() && crl_urls_of(#[trigger] certs[i]).contains(u) {
            let i = choose|i: int| 0 <= i < certs.len() && crl_urls_of(#[trigger] certs[i]).contains(u);
            if i < t.len() {
                assert(crl_urls_of(t[i]).contains(u));
                let q = choose|q: int| 0 <= q < a.len() && a[q] == u;
                assert(all[q] == u);
            } else {
                let q = choose|q: int| 0 <= q < b.len() && b[q] == u;
                assert(all[a.len() + q] == u);
            }
        }
    }
}

/// CRLs are fetched from exactly the plain HTTP URLs that stand among the distribution
/// points of the certificates, from each once.
pub proof fn law_where_crls_are(certs: Seq<Seq<u8>>, u: Seq<char>)
    ensures
        collection_for(certs).urls.no_duplicates(),
        collection_for(certs).certs == certs,
        collection_for(certs).urls.contains(u) <==> is_http(u) && exists|i: int, cert: CertView, l: int, k: int|
            0 <= i < certs.len() && certificate_of(#[trigger] certs[i]) == Ok::<CertView, Seq<char>>(cert)
                && #[trigger] names_point(cert, l, k, u),
{
    let parsed = certificates_of(certs);
    let urls = all_crl_urls(parsed);
    law_distinct(urls);
    lemma_all_crl_urls(parsed, u);
    if urls.contains(u) {
        let j = choose|j: int| 0 <= j < parsed.len() && crl_urls_of(#[trigger] parsed[j]).contains(u);
        let cert = parsed[j];
        let lists = cert.crl_points->0;
        assert(cert.crl_points is Some);
        lemma_http_uris_in(lists, u);
        let l = choose|l: int| 0 <= l < lists.len() && (#[trigger] lists[l]).contains(NameView::Uri(u));
        let k = choose|k: int| 0 <= k < lists[l].len() && lists[l][k] == NameView::Uri(u);
        assert(names_point(cert, l, k, u));
        lemma_certificates_of(certs, cert);
        assert(parsed.contains(cert));
        let i = choose|i: int|
            0 <= i < certs.len() && certificate_of(#[trigger] certs[i]) == Ok::<CertView, Seq<char>>(cert);
        assert(certificate_of(certs[i]) == Ok::<CertView, Seq<char>>(cert));
    }
    if is_http(u) && exists|i: int, cert: CertView, l: int, k: int|
        0 <= i < certs.len() && certificate_of(#[trigger] certs[i]) == Ok::<CertView, Seq<char>>(cert)
            && #[trigger] names_point(cert, l, k, u) {
        let (i, cert, l, k) = choose|i: int, cert: CertView, l: int, k: int|
            0 <= i < certs.len() && certificate_of(#[trigger] certs[i]) == Ok::<CertView, Seq<char>>(cert)
                && #[trigger] names_point(cert, l, k, u);
        lemma_certificates_of(certs, cert);
        assert(parsed.contains(cert));
        let j = choose|j: int| 0 <= j < parsed.len() && parsed[j] == cert;
        let lists = cert.crl_points->0;
        assert(lists[l].contains(NameView::Uri(u)));
        lemma_http_uris_in(lists, u);
        assert(crl_urls_of(parsed[j]).contains(u));
    }
}

/// The access description `k` of a certificate is the first that names an OCSP responder
/// (1.3.6.1.5.5.7.48.1) over plain HTTP.
pub open spec fn names_responder(cert: CertView, k: int, u: Seq<char>) -> bool {
    cert.access matches Some(a) && 0 <= k < a.len() && is_responder_at(a, k, u) && forall|i: int, w: Seq<char>|
        0 <= i < k ==> !#[trigger] is_responder_at(a, i, w)
}

/// An access description of an OCSP responder over plain HTTP.
pub open spec fn is_responder_at(a: Seq<(Seq<u8>, NameView)>, i: int, u: Seq<char>) -> bool {
    a[i].0 == seq![0x2bu8, 0x06, 0x01, 0x05, 0x05, 0x07, 0x30, 0x01] && a[i].1 == NameView::Uri(u) && is_http(u)
}

proof fn lemma_location(a: Seq<(Seq<u8>, NameView)>, i: int, k: int, u: Seq<char>)
    requires
        0 <= i <= k < a.len(),
        is_responder_at(a, k, u),
        forall|j: int, w: Seq<char>| i <= j < k ==> !#[trigger] is_responder_at(a, j, w),
    ensures
        ocsp_location(a, i) == Some(u),
    decreases k - i,
{
    assert(crate::oids::ocsp_access_oid() =~= seq![0x2bu8, 0x06, 0x01, 0x05, 0x05, 0x07, 0x30, 0x01]);
    if let NameView::Uri(w) = a[i].1 {
        lemma_is_http(w);
        if i < k {
            assert(!is_responder_at(a, i, w));
        }
    }
    if i < k {
        lemma_location(a, i + 1, k, u);
    }
}

proof fn lemma_no_location(a: Seq<(Seq<u8>, NameView)>, i: int)
    requires
        0 <= i,
        forall|j: int, w: Seq<char>| i <= j < a.len() ==> !#[trigger] is_responder_at(a, j, w),
    ensures
        ocsp_location(a, i) is None,
    decreases a.len() - i,
{
    assert(crate::oids::ocsp_access_oid() =~= seq![0x2bu8, 0x06, 0x01, 0x05, 0x05, 0x07, 0x30, 0x01]);
    if i < a.len() {
        if let NameView::Uri(w) = a[i].1 {
            lemma_is_http(w);
            assert(!is_responder_at(a, i, w));
        }
        lemma_no_location(a, i + 1);
    }
}

/// A certificate of the pool is the first with the name of the issuer, other than the
/// certificate itself.
pub open spec fn first_issuer(cert: CertView, pool: Seq<CertView>, j: int) -> bool {
    &&& 0 <= j < pool.len() && pool[j].core.subject == cert.core.issuer && pool[j].core.der != cert.core.der
    &&& forall|i: int|
        0 <= i < j ==> (#[trigger] pool[i]).core.subject != cert.core.issuer || pool[i].core.der == cert.core.der
}

proof fn lemma_issuer(cert: CertView, pool: Seq<CertView>, i: int, j: int)
    requires
        0 <= i <= j,
        first_issuer(cert, pool, j),
    ensures
        issuer_index(cert, pool, i) == Some(j),
    decreases j - i,
{
    if i < j {
        lemma_issuer(cert, pool, i + 1, j);
    }
}

proof fn lemma_no_issuer(cert: CertView, pool: Seq<CertView>, i: int)
    requires
        0 <= i,
        forall|j: int|
            i <= j < pool.len() ==> (#[trigger] pool[j]).core.subject != cert.core.issuer || pool[j].core.der
                == cert.core.der,
    ensures
        issuer_index(cert, pool, i) is None,
    decreases pool.len() - i,
{
    if i < pool.len() {
        lemma_no_issuer(cert, pool, i + 1);
    }
}

/// The status of a certificate is asked for at the responder that it names, under the
/// certificate of its issuer and its own serial number. A certificate that names no
/// responder over plain HTTP, or whose issuer is not at hand, is not asked for.
pub proof fn law_what_responders_are_asked(cert: CertView, pool: Seq<CertView>, j: int, k: int, u: Seq<char>)
    ensures
        first_issuer(cert, pool, j) && names_responder(cert, k, u) ==> match ocsp_request(
            pool[j].core.der,
            cert.core.serial,
        ) {
            Some(body) => ocsp_query(cert, pool) == Some((u, body)),
            None => ocsp_query(cert, pool) is None,
        },
        cert.access is None ==> ocsp_query(cert, pool) is None,
        cert.access matches Some(a) ==> (forall|i: int, w: Seq<char>|
            0 <= i < a.len() ==> !#[trigger] is_responder_at(a, i, w)) ==> ocsp_query(cert, pool) is None,
        (forall|i: int|
            0 <= i < pool.len() ==> (#[trigger] pool[i]).core.subject != cert.core.issuer || pool[i].core.der
                == cert.core.der) ==> ocsp_query(cert, pool) is None,
{
    if first_issuer(cert, pool, j) && names_responder(cert, k, u) {
        lemma_issuer(cert, pool, 0, j);
        lemma_location(cert.access->0, 0, k, u);
        assert(ocsp_url_of(cert) == Some(u));
    }
    if let Some(a) = cert.access {
        if forall|i: int, w: Seq<char>| 0 <= i < a.len() ==> !#[trigger] is_responder_at(a, i, w) {
            lemma_no_location(a, 0);
        }
    }
    if forall|i: int|
        0 <= i < pool.len() ==> (#[trigger] pool[i]).core.subject != cert.core.issuer || pool[i].core.der
            == cert.core.der {
        lemma_no_issuer(cert, pool, 0);
    }
}

proof fn lemma_queries(certs: Seq<CertView>, pool: Seq<CertView>, q: (Seq<char>, Seq<u8>))
    ensures
        ocsp_queries(certs, pool).contains(q) <==> exists|i: int|
            0 <= i < certs.len() && ocsp_query(#[trigger] certs[i], pool) == Some(q),
    decreases certs.len(),
{
    if certs.len() > 0 {
        let t = certs.drop_last();
        lemma_queries(t, pool, q);
        let (all, rest) = (ocsp_queries(certs, pool), ocsp_queries(t, pool));
        if all.contains(q) {
            let n = choose|n: int| 0 <= n < all.len() && all[n] == q;
            if n < rest.len() {
                assert(rest[n] == q);
                assert(rest.contains(q));
                let i = choose|i: int| 0 <= i < t.len() && ocsp_query(#[trigger] t[i], pool) == Some(q);
                assert(ocsp_query(certs[i], pool) == Some(q));
            } else {
                assert(ocsp_query(certs[certs.len() - 1], pool) == Some(q));
            }
        }
        if exists|i: int| 0 <= i < certs.len() && ocsp_query(#[trigger] certs[i], pool) == Some(q) {
            let i = choose|i: int| 0 <= i < certs.len() && ocsp_query(#[trigger] certs[i], pool) == Some(q);
            if i < t.len() {
                assert(ocsp_query(t[i], pool) == Some(q));
                let n = choose|n: int| 0 <= n < rest.len() && rest[n] == q;
                assert(all[n] == q);
            } else {
                assert(all[all.len() - 1] == q);
            }
        }
    }
}

/// OCSP responses are asked for every certificate that is embedded, with all of them as
/// candidates for the issuer.
pub proof fn law_whose_status_is_asked(certs: Seq<Seq<u8>>, q: (Seq<char>, Seq<u8>))
    ensures
        collection_for(certs).queries.contains(q) <==> exists|i: int, cert: CertView|
            0 <= i < certs.len() && certificate_of(#[trigger] certs[i]) == Ok::<CertView, Seq<char>>(cert)
                && #[trigger] ocsp_query(cert, certificates_of(certs)) == Some(q),
{
    let parsed = certificates_of(certs);
    lemma_queries(parsed, parsed, q);
    if collection_for(certs).queries.contains(q) {
        let j = choose|j: int| 0 <= j < parsed.len() && ocsp_query(#[trigger] parsed[j], parsed) == Some(q);
        let cert = parsed[j];
        lemma_certificates_of(certs, cert);
        assert(parsed.contains(cert));
        let i = choose|i: int|
            0 <= i < certs.len() && certificate_of(#[trigger] certs[i]) == Ok::<CertView, Seq<char>>(cert);
        assert(certificate_of(certs[i]) == Ok::<CertView, Seq<char>>(cert) && ocsp_query(cert, parsed) == Some(q));
    }
    if exists|i: int, cert: CertView|
        0 <= i < certs.len() && certificate_of(#[trigger] certs[i]) == Ok::<CertView, Seq<char>>(cert)
            && #[trigger] ocsp_query(cert, certificates_of(certs)) == Some(q) {
        let (i, cert) = choose|i: int, cert: CertView|
            0 <= i < certs.len() && certificate_of(#[trigger] certs[i]) == Ok::<CertView, Seq<char>>(cert)
                && #[trigger] ocsp_query(cert, certificates_of(certs)) == Some(q);
        lemma_certificates_of(certs, cert);
        assert(parsed.contains(cert));
        let j = choose|j: int| 0 <= j < parsed.len() && parsed[j] == cert;
        assert(ocsp_query(parsed[j], parsed) == Some(q));
    }
}

} // verus!
