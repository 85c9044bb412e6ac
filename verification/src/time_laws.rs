//! What a timestamp is: how the time, the imprint and the token are bound to each other,
//! and which time a chain of certificates is judged at.
use vstd::prelude::*;

use crate::der_laws::{der_value, law_value_is_der, law_value_reads_back, lemma_longer, stands_at};
use crate::digest::sha256;
use crate::error::ErrorView;
use crate::signature_laws::{hash_arc, is_hash_of, lemma_hashes};
use crate::signed_data::{cms_of, detached_verdict, first_values, signer_at, token_among, unsigned_values_at, HeadView};
use crate::timestamp::{
    cms_content, doc_timestamp_verdict, embedded_timestamp, generalized_time, imprint_at, tagged_at, tst_of, TstView,
};

verus! {

// ---------------------------------------------------------------------------
// The content of a token

/// The parts of a `TSTInfo`, each the content of its DER value; `parameters` and `further`
/// are whole values that may be left out.
pub struct TstParts {
    pub version: Seq<u8>,
    pub policy: Seq<u8>,
    pub algorithm: Seq<u8>,
    pub parameters: Seq<u8>,
    pub hash: Seq<u8>,
    pub serial: Seq<u8>,
    pub time: Seq<u8>,
    pub further: Seq<u8>,
}

/// The `AlgorithmIdentifier` of the imprint.
pub open spec fn algorithm_bytes(p: TstParts) -> Seq<u8> {
    der_value(0x30, der_value(0x06, p.algorithm) + p.parameters)
}

/// The `MessageImprint`.
pub open spec fn imprint_bytes(p: TstParts) -> Seq<u8> {
    der_value(0x30, algorithm_bytes(p) + der_value(0x04, p.hash))
}

/// The `TSTInfo` as DER writes it: version, policy, imprint, serial number, time.
#[verifier::opaque]
pub open spec fn tst_bytes(p: TstParts) -> Seq<u8> {
    der_value(
        0x30,
        der_value(0x02, p.version) + der_value(0x06, p.policy) + imprint_bytes(p) + der_value(0x02, p.serial)
            + der_value(0x18, p.time) + p.further,
    )
}

proof fn lemma_tagged(s: Seq<u8>, i: int, j: int, tag: u8, content: Seq<u8>, end: int)
    requires
        stands_at(der_value(tag, content), s, i, j),
        j <= end,
        s.len() < 0x1_0000_0000,
    ensures
        tagged_at(s, i, tag, end) == Some((j - content.len(), j)),
        s.subrange(j - content.len(), j) == content,
{
    lemma_longer(tag, content);
    assert(s.subrange(i, j).len() == j - i);
    law_value_reads_back(s, i, j, tag, content);
}

/// A part of what stands in the bytes stands in them too.
pub proof fn lemma_part(s: Seq<u8>, i: int, j: int, before: Seq<u8>, x: Seq<u8>, after: Seq<u8>)
    requires
        stands_at(before + x + after, s, i, j),
    ensures
        stands_at(x, s, i + before.len(), i + before.len() + x.len()),
        i + before.len() + x.len() + after.len() == j,
{
    let whole = before + x + after;
    let a = i + before.len();
    assert(s.subrange(i, j).len() == whole.len());
    assert forall|k: int| 0 <= k < x.len() implies s.subrange(a, a + x.len())[k] == x[k] by {
        assert(s.subrange(i, j)[before.len() + k] == whole[before.len() + k]);
    }
    assert(s.subrange(a, a + x.len()) =~= x);
}

proof fn lemma_six(s: Seq<u8>, a: int, end: int, v: Seq<u8>, o: Seq<u8>, m: Seq<u8>, n: Seq<u8>, t: Seq<u8>, f: Seq<u8>)
    requires
        stands_at(v + o + m + n + t + f, s, a, end),
    ensures
        stands_at(v, s, a, a + v.len()),
        stands_at(o, s, a + v.len(), a + v.len() + o.len()),
        stands_at(m, s, a + v.len() + o.len(), a + v.len() + o.len() + m.len()),
        stands_at(n, s, a + v.len() + o.len() + m.len(), a + v.len() + o.len() + m.len() + n.len()),
        stands_at(
            t,
            s,
            a + v.len() + o.len() + m.len() + n.len(),
            a + v.len() + o.len() + m.len() + n.len() + t.len(),
        ),
        a + v.len() + o.len() + m.len() + n.len() + t.len() <= end,
{
    let all = v + o + m + n + t + f;
    assert(all =~= Seq::<u8>::empty() + v + (o + m + n + t + f));
    lemma_part(s, a, end, Seq::empty(), v, o + m + n + t + f);
    assert(all =~= v + o + (m + n + t + f));
    lemma_part(s, a, end, v, o, m + n + t + f);
    assert(all =~= (v + o) + m + (n + t + f));
    lemma_part(s, a, end, v + o, m, n + t + f);
    assert(all =~= (v + o + m) + n + (t + f));
    lemma_part(s, a, end, v + o + m, n, t + f);
    assert(all =~= (v + o + m + n) + t + f);
    lemma_part(s, a, end, v + o + m + n, t, f);
}

/// The fields of a `TSTInfo` read back: the imprint's algorithm and hash, and the time.
pub proof fn law_tst_reads_back(p: TstParts)
    requires
        tst_bytes(p).len() < 0x1_0000_0000,
    ensures
        tst_of(tst_bytes(p)) == Some(
            TstView { algorithm: p.algorithm, imprint: p.hash, time: der_value(0x18, p.time) },
        ),
{
    reveal(tst_bytes);
    let s = tst_bytes(p);
    let end = s.len() as int;
    let (v, o, m, n, t) = (
        der_value(0x02, p.version),
        der_value(0x06, p.policy),
        imprint_bytes(p),
        der_value(0x02, p.serial),
        der_value(0x18, p.time),
    );
    let all = v + o + m + n + t + p.further;
    assert(s.subrange(0, end) =~= s);
    lemma_tagged(s, 0, end, 0x30, all, end);
    let a = end - all.len();
    assert(stands_at(all, s, a, end));
    lemma_six(s, a, end, v, o, m, n, t, p.further);
    let v_end = a + v.len();
    let o_end = v_end + o.len();
    let m_end = o_end + m.len();
    let n_end = m_end + n.len();
    let t_end = n_end + t.len();
    lemma_tagged(s, a, v_end, 0x02, p.version, end);
    lemma_tagged(s, v_end, o_end, 0x06, p.policy, end);
    lemma_tagged(s, m_end, n_end, 0x02, p.serial, end);
    lemma_tagged(s, n_end, t_end, 0x18, p.time, end);
    lemma_imprint(s, o_end, m_end, end, p);
}

proof fn lemma_imprint(s: Seq<u8>, i: int, j: int, end: int, p: TstParts)
    requires
        stands_at(imprint_bytes(p), s, i, j),
        j <= end,
        s.len() < 0x1_0000_0000,
    ensures
        imprint_at(s, i, end) == Some((p.algorithm, p.hash, j)),
{
    let (g, h) = (algorithm_bytes(p), der_value(0x04, p.hash));
    lemma_tagged(s, i, j, 0x30, g + h, end);
    let a = j - (g + h).len();
    assert(g + h =~= Seq::<u8>::empty() + g + h);
    assert(g + h =~= g + h + Seq::<u8>::empty());
    lemma_part(s, a, j, Seq::empty(), g, h);
    lemma_part(s, a, j, g, h, Seq::empty());
    let g_end = a + g.len();
    let o = der_value(0x06, p.algorithm);
    lemma_tagged(s, a, g_end, 0x30, o + p.parameters, j);
    let b = g_end - (o + p.parameters).len();
    assert(o + p.parameters =~= Seq::<u8>::empty() + o + p.parameters);
    lemma_part(s, b, g_end, Seq::empty(), o, p.parameters);
    lemma_tagged(s, b, b + o.len(), 0x06, p.algorithm, g_end);
    lemma_tagged(s, g_end, j, 0x04, p.hash, j);
}

/// What is read as a `TSTInfo` is one, as DER writes it, with those fields.
pub proof fn law_tst_is_der(s: Seq<u8>) -> (p: TstParts)
    requires
        tst_of(s) is Some,
    ensures
        s == tst_bytes(p),
        tst_of(s) == Some(TstView { algorithm: p.algorithm, imprint: p.hash, time: der_value(0x18, p.time) }),
{
    let (a, end) = tagged_at(s, 0, 0x30, s.len() as int)->0;
    let (v, v_end) = tagged_at(s, a, 0x02, end)->0;
    let (o, o_end) = tagged_at(s, v_end, 0x06, end)->0;
    let (g, m_end) = tagged_at(s, o_end, 0x30, end)->0;
    let (al, al_end) = tagged_at(s, g, 0x30, m_end)->0;
    let (id, id_end) = tagged_at(s, al, 0x06, al_end)->0;
    let (h, h_end) = tagged_at(s, al_end, 0x04, m_end)->0;
    let (n, n_end) = tagged_at(s, m_end, 0x02, end)->0;
    let (t, t_end) = tagged_at(s, n_end, 0x18, end)->0;
    law_value_is_der(s, 0);
    law_value_is_der(s, a);
    law_value_is_der(s, v_end);
    law_value_is_der(s, o_end);
    law_value_is_der(s, g);
    law_value_is_der(s, al);
    law_value_is_der(s, al_end);
    law_value_is_der(s, m_end);
    law_value_is_der(s, n_end);
    let p = TstParts {
        version: s.subrange(v, v_end),
        policy: s.subrange(o, o_end),
        algorithm: s.subrange(id, id_end),
        parameters: s.subrange(id_end, al_end),
        hash: s.subrange(h, h_end),
        serial: s.subrange(n, n_end),
        time: s.subrange(t, t_end),
        further: s.subrange(t_end, end),
    };
    assert(s.subrange(al, al_end) =~= der_value(0x06, p.algorithm) + p.parameters) by {
        assert(s.subrange(al, al_end) =~= s.subrange(al, id_end) + s.subrange(id_end, al_end));
    }
    assert(s.subrange(g, al_end) == algorithm_bytes(p));
    assert(s.subrange(g, m_end) =~= algorithm_bytes(p) + der_value(0x04, p.hash)) by {
        assert(s.subrange(g, m_end) =~= s.subrange(g, al_end) + s.subrange(al_end, m_end));
    }
    assert(s.subrange(o_end, m_end) == imprint_bytes(p));
    let all = der_value(0x02, p.version) + der_value(0x06, p.policy) + imprint_bytes(p) + der_value(0x02, p.serial)
        + der_value(0x18, p.time) + p.further;
    assert(s.subrange(a, end) =~= all) by {
        assert(s.subrange(a, end) =~= s.subrange(a, v_end) + s.subrange(v_end, o_end) + s.subrange(o_end, m_end)
            + s.subrange(m_end, n_end) + s.subrange(n_end, t_end) + s.subrange(t_end, end));
    }
    assert(s.subrange(0, end) =~= s);
    reveal(tst_bytes);
    p
}

// ---------------------------------------------------------------------------
// Document timestamps

/// The content type of a timestamp token, `id-ct-TSTInfo` (1.2.840.113549.1.9.16.1.4).
pub open spec fn tst_info_arc() -> Seq<u8> {
    seq![0x2au8, 0x86, 0x48, 0x86, 0xf7, 0x0d, 0x01, 0x09, 0x10, 0x01, 0x04]
}

/// A document timestamp is accepted exactly if its content is a `TSTInfo` whose imprint is
/// the SHA-256 hash of the signed bytes, under that algorithm, and whose time can be read.
pub proof fn law_document_timestamp(token: Seq<u8>, data: Seq<u8>, p: TstParts)
    requires
        tst_bytes(p).len() < 0x1_0000_0000,
        cms_content(token) == Ok::<(Seq<u8>, Option<Seq<u8>>), Seq<char>>((tst_info_arc(), Some(tst_bytes(p)))),
    ensures
        doc_timestamp_verdict(token, data) is Ok <==> p.algorithm == hash_arc(1) && p.hash == sha256(data)
            && generalized_time(der_value(0x18, p.time)) is Some,
{
    assert(tst_info_arc() =~= crate::oids::tst_info_oid());
    assert(hash_arc(1) =~= crate::oids::sha256_oid());
    law_tst_reads_back(p);
}

/// Only a timestamp token is accepted as a document timestamp.
pub proof fn law_accepted_document_timestamp(token: Seq<u8>, data: Seq<u8>) -> (p: TstParts)
    requires
        doc_timestamp_verdict(token, data) is Ok,
    ensures
        cms_content(token) == Ok::<(Seq<u8>, Option<Seq<u8>>), Seq<char>>((tst_info_arc(), Some(tst_bytes(p)))),
        p.algorithm == hash_arc(1),
        p.hash == sha256(data),
{
    assert(tst_info_arc() =~= crate::oids::tst_info_oid());
    assert(hash_arc(1) =~= crate::oids::sha256_oid());
    let (oid, content) = cms_content(token)->Ok_0;
    law_tst_is_der(content->0)
}

// ---------------------------------------------------------------------------
// Embedded timestamps

/// The type of the attribute that holds a timestamp, `id-aa-timeStampToken`
/// (1.2.840.113549.1.9.16.2.14).
pub open spec fn time_stamp_token_arc() -> Seq<u8> {
    seq![0x2au8, 0x86, 0x48, 0x86, 0xf7, 0x0d, 0x01, 0x09, 0x10, 0x02, 0x0e]
}

/// The unsigned attribute `k` of the first signer is the first timestamp, and holds the
/// token.
pub open spec fn holds_token(list: Seq<(Seq<u8>, Seq<Seq<u8>>)>, k: int, token: Seq<u8>) -> bool {
    &&& 0 <= k < list.len() && list[k].0 == time_stamp_token_arc() && list[k].1.len() > 0 && list[k].1[0] == token
    &&& forall|i: int|
        0 <= i < k ==> (#[trigger] list[i]).0 != time_stamp_token_arc() || list[i].1.len() == 0
}

/// A token asserts a time for a signature value: it is signed, the signature holds over its
/// content, and the content is a `TSTInfo` with the hash of the value and the time.
pub open spec fn asserts_time(token: Seq<u8>, signature: Seq<u8>, t: u64, p: TstParts) -> bool {
    &&& cms_content(token) == Ok::<(Seq<u8>, Option<Seq<u8>>), Seq<char>>((tst_info_arc(), Some(tst_bytes(p))))
    &&& detached_verdict(token, tst_bytes(p)) is Ok
    &&& is_hash_of(p.hash, p.algorithm, signature)
    &&& generalized_time(der_value(0x18, p.time)) == Some(t)
}

proof fn lemma_token_among(list: Seq<(Seq<u8>, Seq<Seq<u8>>)>, i: int)
    requires
        0 <= i,
    ensures
        match token_among(first_values(list), i) {
            Some(token) => exists|k: int|
                i <= k < list.len() && (#[trigger] list[k]).0 == time_stamp_token_arc() && list[k].1.len() > 0
                    && list[k].1[0] == token && forall|q: int|
                    i <= q < k ==> (#[trigger] list[q]).0 != time_stamp_token_arc() || list[q].1.len() == 0,
            None => forall|q: int|
                i <= q < list.len() ==> (#[trigger] list[q]).0 != time_stamp_token_arc() || list[q].1.len() == 0,
        },
    decreases list.len() - i,
{
    assert(time_stamp_token_arc() =~= crate::oids::time_stamp_token_oid());
    let firsts = first_values(list);
    if i < list.len() {
        assert(firsts[i].0 == list[i].0);
        lemma_token_among(list, i + 1);
        if token_among(firsts, i) is Some {
            if list[i].0 == time_stamp_token_arc() && list[i].1.len() > 0 {
                assert(list[i].1[0] == token_among(firsts, i)->0);
            } else {
                let token = token_among(firsts, i + 1)->0;
                let k = choose|k: int|
                    i + 1 <= k < list.len() && (#[trigger] list[k]).0 == time_stamp_token_arc() && list[k].1.len() > 0
                        && list[k].1[0] == token && forall|q: int|
                        i + 1 <= q < k ==> (#[trigger] list[q]).0 != time_stamp_token_arc() || list[q].1.len() == 0;
                assert(list[k].0 == time_stamp_token_arc());
            }
        }
    }
}

/// The time of an embedded timestamp counts only if a token among the unsigned attributes
/// of the signature asserts it for the signature value, and the token is itself signed.
pub proof fn law_embedded_time_was_asserted(cms: Seq<u8>) -> (r: (int, Seq<u8>, TstParts))
    requires
        embedded_timestamp(cms) is Ok,
    ensures
        match (signer_at(cms, 0), unsigned_values_at(cms, 0), embedded_timestamp(cms)) {
            (Ok(Some(head)), Ok(Some(list)), Ok((t, signed))) => {
                &&& holds_token(list, r.0, r.1)
                &&& asserts_time(r.1, head.signature, t, r.2)
                &&& cms_of(r.1) == Ok::<crate::signed_data::CmsView, Seq<char>>(signed)
            },
            _ => false,
        },
{
    assert(tst_info_arc() =~= crate::oids::tst_info_oid());
    let head = signer_at(cms, 0)->Ok_0->0;
    let list = unsigned_values_at(cms, 0)->Ok_0->0;
    lemma_token_among(list, 0);
    let token = token_among(first_values(list), 0)->0;
    let k = choose|k: int|
        0 <= k < list.len() && (#[trigger] list[k]).0 == time_stamp_token_arc() && list[k].1.len() > 0 && list[k].1[0]
            == token && forall|q: int|
            0 <= q < k ==> (#[trigger] list[q]).0 != time_stamp_token_arc() || list[q].1.len() == 0;
    let (oid, content) = cms_content(token)->Ok_0;
    let p = law_tst_is_der(content->0);
    lemma_hashes(p.algorithm, head.signature);
    assert(is_hash_of(p.hash, p.algorithm, head.signature));
    assert(holds_token(list, k, token));
    (k, token, p)
}

/// A timestamp that is asserted for a signature value is found.
pub proof fn law_asserted_time_is_found(
    cms: Seq<u8>,
    head: HeadView,
    list: Seq<(Seq<u8>, Seq<Seq<u8>>)>,
    k: int,
    token: Seq<u8>,
    t: u64,
    p: TstParts,
)
    requires
        cms_of(cms) is Ok,
        signer_at(cms, 0) == Ok::<Option<HeadView>, Seq<char>>(Some(head)),
        unsigned_values_at(cms, 0) == Ok::<Option<Seq<(Seq<u8>, Seq<Seq<u8>>)>>, Seq<char>>(Some(list)),
        holds_token(list, k, token),
        asserts_time(token, head.signature, t, p),
        tst_bytes(p).len() < 0x1_0000_0000,
    ensures
        embedded_timestamp(cms) == Ok::<(u64, crate::signed_data::CmsView), ErrorView>((t, cms_of(token)->Ok_0)),
{
    assert(tst_info_arc() =~= crate::oids::tst_info_oid());
    lemma_token_among(list, 0);
    assert(list[k].0 == time_stamp_token_arc());
    assert(token_among(first_values(list), 0) is Some);
    law_tst_reads_back(p);
    lemma_hashes(p.algorithm, head.signature);
    assert(is_hash_of(p.hash, p.algorithm, head.signature));
}

} // verus!
