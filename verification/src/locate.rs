//! Finding the signatures of a document.
use vstd::prelude::*;
use vstd::utf8::{decode_utf8, valid_utf8};

use crate::document::{doc_objects, load_document, loaded, Doc, Document};
use crate::error::{malformed, Error, ErrorView};
use crate::object::{lemma_objs, lookup, objs, Dict, Dictionary, Obj, Object};
use crate::text::{chars_of, from_utf8, parse_signed, signed, split_words, texts, words_from};
use crate::util::{
    append_dec, bytes_eq, dec_text, find_from, find_last, find_sub, first_from, hex_decode, last_in,
    lemma_first_from, lemma_lit, lit, raw, to_vec, unhex,
};

verus! {

/// A signature located in the document: its `/ByteRange`, the raw `/Contents`
/// bytes (hex-decoded, including any zero padding), and whether it is a document
/// timestamp (`/SubFilter /ETSI.RFC3161`).
#[derive(Debug)]
pub struct SigLoc {
    pub byte_range: [i64; 4],
    pub contents: Vec<u8>,
    pub is_timestamp: bool,
}

/// A located signature as a mathematical value.
pub struct SigView {
    pub byte_range: Seq<i64>,
    pub contents: Seq<u8>,
    pub is_timestamp: bool,
}

impl SigLoc {
    pub open spec fn view(&self) -> SigView {
        SigView {
            byte_range: self.byte_range@,
            contents: self.contents@,
            is_timestamp: self.is_timestamp,
        }
    }
}

/// The views of a list of located signatures.
pub open spec fn sig_views(v: Seq<SigLoc>) -> Seq<SigView> {
    Seq::new(v.len(), |i: int| v[i]@)
}

// ---------------------------------------------------------------------------
// By structure

/// The four numbers of an array of integers.
pub open spec fn four_integers(a: Seq<Obj>) -> Option<Seq<i64>> {
    if a.len() == 4 && (forall|i: int| 0 <= i < 4 ==> (#[trigger] a[i]) is Integer) {
        Some(Seq::new(4, |i: int| a[i]->Integer_0))
    } else {
        None
    }
}

/// A signature dictionary: it carries both a `/ByteRange` array of four integers
/// and a `/Contents` string, in whatever order.
pub open spec fn signature_in(d: Dict) -> Option<SigView> {
    match (lookup(d, lit("Contents")), lookup(d, lit("ByteRange"))) {
        (Some(Obj::String(contents, _)), Some(Obj::Array(a))) => match four_integers(a) {
            Some(byte_range) => Some(
                SigView {
                    byte_range,
                    contents,
                    is_timestamp: lookup(d, lit("SubFilter")) == Some(Obj::Name(lit("ETSI.RFC3161"))),
                },
            ),
            None => None,
        },
        _ => None,
    }
}

fn read_four(a: &Vec<Object>) -> (r: Option<[i64; 4]>)
    ensures
        match four_integers(objs(a@)) {
            Some(s) => r is Some && r->0@ == s,
            None => r is None,
        },
{
    proof {
        lemma_objs(a@);
    }
    if a.len() != 4 {
        return None;
    }
    let ghost v = objs(a@);
    match (&a[0], &a[1], &a[2], &a[3]) {
        (Object::Integer(p), Object::Integer(q), Object::Integer(s), Object::Integer(t)) => {
            let r: [i64; 4] = [*p, *q, *s, *t];
            assert(v[0] == a@[0]@ && v[1] == a@[1]@ && v[2] == a@[2]@ && v[3] == a@[3]@);
            assert(r@ =~= four_integers(v)->0);
            Some(r)
        },
        _ => {
            assert(v[0] == a@[0]@ && v[1] == a@[1]@ && v[2] == a@[2]@ && v[3] == a@[3]@);
            assert(!(v[0] is Integer && v[1] is Integer && v[2] is Integer && v[3] is Integer));
            None
        },
    }
}

/// Recognize a signature dictionary and read the fields we need, regardless of
/// key order. A signature dictionary carries both a `/ByteRange` array and a
/// `/Contents` string.
pub fn signature_from_dict(dict: &Dictionary) -> (r: Option<SigLoc>)
    ensures
        match signature_in(dict@) {
            Some(s) => r is Some && r->0@ == s,
            None => r is None,
        },
{
    let contents: Vec<u8> = match dict.get("Contents") {
        Some(Object::String(s, _)) => to_vec(s),
        _ => {
            return None;
        },
    };
    let byte_range: [i64; 4] = match dict.get("ByteRange") {
        Some(Object::Array(a)) => match read_four(a) {
            Some(r) => r,
            None => {
                return None;
            },
        },
        _ => {
            return None;
        },
    };
    let is_timestamp: bool = match dict.get("SubFilter") {
        Some(Object::Name(n)) => bytes_eq(n, raw("ETSI.RFC3161")),
        _ => false,
    };
    Some(SigLoc { byte_range, contents, is_timestamp })
}

/// The signature dictionaries among the objects of a document, by object number.
pub open spec fn signatures_among(objects: Seq<(crate::object::ObjectId, Obj)>) -> Seq<SigView>
    decreases objects.len(),
{
    if objects.len() == 0 {
        Seq::empty()
    } else {
        let r = signatures_among(objects.drop_last());
        match objects.last().1 {
            Obj::Dictionary(d) => match signature_in(d) {
                Some(s) => r.push(s),
                None => r,
            },
            _ => r,
        }
    }
}

/// Where the `/Contents` of a signature begin in the file.
pub open spec fn contents_offset(s: SigView) -> int {
    s.byte_range[0] + s.byte_range[1]
}

/// The signatures with `x` among them, behind those whose contents do not begin
/// later.
pub open spec fn insert_signature(s: Seq<SigView>, x: SigView) -> Seq<SigView>
    decreases s.len(),
{
    if s.len() == 0 || contents_offset(s.last()) <= contents_offset(x) {
        s.push(x)
    } else {
        insert_signature(s.drop_last(), x).push(s.last())
    }
}

/// The signatures in file order: an earlier signature's `/Contents` sits at a lower
/// offset than a later one. Those at the same offset keep their order.
pub open spec fn in_file_order(s: Seq<SigView>) -> Seq<SigView>
    decreases s.len(),
{
    if s.len() == 0 {
        Seq::empty()
    } else {
        insert_signature(in_file_order(s.drop_last()), s.last())
    }
}

/// Signatures in file order are those of the list, by increasing offset.
pub proof fn law_file_order(s: Seq<SigView>)
    ensures
        in_file_order(s).len() == s.len(),
        in_file_order(s).to_multiset() == s.to_multiset(),
        forall|i: int, j: int|
            0 <= i < j < s.len() ==> contents_offset(#[trigger] in_file_order(s)[i]) <= contents_offset(
                #[trigger] in_file_order(s)[j],
            ),
    decreases s.len(),
{
    broadcast use vstd::seq_lib::group_to_multiset_ensures;

    if s.len() > 0 {
        let t = s.drop_last();
        law_file_order(t);
        lemma_insert_signature(in_file_order(t), s.last());
        assert(s =~= t.push(s.last()));
    } else {
        assert(in_file_order(s) =~= s);
    }
}

proof fn lemma_insert_signature(s: Seq<SigView>, x: SigView)
    requires
        forall|i: int, j: int|
            0 <= i < j < s.len() ==> contents_offset(#[trigger] s[i]) <= contents_offset(#[trigger] s[j]),
    ensures
        insert_signature(s, x).len() == s.len() + 1,
        insert_signature(s, x).to_multiset() == s.to_multiset().insert(x),
        forall|i: int, j: int|
            0 <= i < j < s.len() + 1 ==> contents_offset(#[trigger] insert_signature(s, x)[i]) <= contents_offset(
                #[trigger] insert_signature(s, x)[j],
            ),
        forall|i: int|
            0 <= i < s.len() + 1 ==> insert_signature(s, x)[i] == x || s.contains(#[trigger] insert_signature(s, x)[i]),
    decreases s.len(),
{
    broadcast use vstd::seq_lib::group_to_multiset_ensures;

    let r = insert_signature(s, x);
    if s.len() == 0 || contents_offset(s.last()) <= contents_offset(x) {
        assert forall|i: int| 0 <= i < s.len() + 1 implies r[i] == x || s.contains(#[trigger] r[i]) by {
            if i < s.len() {
                assert(r[i] == s[i]);
            }
        }
        assert forall|i: int, j: int| 0 <= i < j < s.len() + 1 implies contents_offset(#[trigger] r[i])
            <= contents_offset(#[trigger] r[j]) by {
            if j == s.len() && s.len() > 0 {
                assert(r[i] == s[i]);
                if i < s.len() - 1 {
                    assert(contents_offset(s[i]) <= contents_offset(s[s.len() - 1]));
                }
            }
        }
    } else {
        let t = s.drop_last();
        lemma_insert_signature(t, x);
        let q = insert_signature(t, x);
        assert(s =~= t.push(s.last()));
        assert(r.to_multiset() =~= s.to_multiset().insert(x));
        assert forall|i: int| 0 <= i < s.len() + 1 implies r[i] == x || s.contains(#[trigger] r[i]) by {
            if i < q.len() {
                assert(r[i] == q[i]);
                if q[i] != x {
                    let k = choose|k: int| 0 <= k < t.len() && t[k] == q[i];
                    assert(s[k] == q[i]);
                }
            } else {
                assert(s[s.len() - 1] == r[i]);
            }
        }
        assert forall|i: int, j: int| 0 <= i < j < s.len() + 1 implies contents_offset(#[trigger] r[i])
            <= contents_offset(#[trigger] r[j]) by {
            assert(r[i] == q[i]);
            if j < q.len() {
                assert(r[j] == q[j]);
            } else {
                if q[i] != x {
                    let k = choose|k: int| 0 <= k < t.len() && t[k] == q[i];
                    assert(s[k] == q[i]);
                    assert(contents_offset(s[k]) <= contents_offset(s[s.len() - 1]));
                }
            }
        }
    }
}

fn offset_of(s: &SigLoc) -> (r: i128)
    ensures
        r == contents_offset(s@),
{
    s.byte_range[0] as i128 + s.byte_range[1] as i128
}

/// Puts a signature in its place in file order.
fn insert_sig(v: &mut Vec<SigLoc>, x: SigLoc)
    ensures
        sig_views(final(v)@) == insert_signature(sig_views(old(v)@), x@),
{
    let ghost s = sig_views(v@);
    let ghost y = x@;
    let mut k: usize = v.len();
    assert(s.take(k as int) =~= s);
    assert(s.skip(k as int) =~= Seq::empty());
    while k > 0 && offset_of(&v[k - 1]) > offset_of(&x)
        invariant
            k <= v.len(),
            s == sig_views(v@),
            y == x@,
            insert_signature(s, y) =~= insert_signature(s.take(k as int), y) + s.skip(k as int),
        decreases k,
    {
        proof {
            let t = s.take(k as int);
            assert(s[k - 1] == v@[k - 1]@);
            assert(t.last() == s[k - 1]);
            assert(t.drop_last() =~= s.take(k - 1));
            assert(insert_signature(t, y) == insert_signature(s.take(k - 1), y).push(s[k - 1]));
            assert(insert_signature(s.take(k - 1), y).push(s[k - 1]) + s.skip(k as int) =~= insert_signature(
                s.take(k - 1),
                y,
            ) + s.skip(k - 1));
        }
        k -= 1;
    }
    proof {
        if k > 0 {
            assert(s.take(k as int).last() == s[k - 1]);
            assert(s[k - 1] == v@[k - 1]@);
        }
        assert(insert_signature(s.take(k as int), y) == s.take(k as int).push(y));
    }
    v.insert(k, x);
    assert(sig_views(v@) =~= s.take(k as int).push(y) + s.skip(k as int));
}

/// The signatures of a parsed document in file order.
pub fn document_signatures(doc: &Document) -> (r: Vec<SigLoc>)
    ensures
        sig_views(r@) == in_file_order(signatures_among(doc@.objects)),
{
    let mut out: Vec<SigLoc> = Vec::new();
    let ghost v = doc@.objects;
    let mut i: usize = 0;
    proof {
        assert(v.take(0) =~= Seq::empty());
        assert(sig_views(out@) =~= Seq::empty());
    }
    while i < doc.objects.len()
        invariant
            i <= doc.objects.len(),
            v == doc_objects(doc.objects@),
            sig_views(out@) == in_file_order(signatures_among(v.take(i as int))),
        decreases doc.objects.len() - i,
    {
        proof {
            let t = v.take(i + 1);
            assert(t.drop_last() =~= v.take(i as int));
            assert(t.last() == (doc.objects@[i as int].0, doc.objects@[i as int].1@));
        }
        match &doc.objects[i].1 {
            Object::Dictionary(d) => {
                let ghost before = signatures_among(v.take(i as int));
                if let Some(s) = signature_from_dict(d) {
                    assert(before.push(s@).drop_last() =~= before);
                    insert_sig(&mut out, s);
                }
            },
            _ => {},
        }
        i += 1;
    }
    assert(v.take(i as int) =~= v);
    out
}

// ---------------------------------------------------------------------------
// By scanning

/// The numbers of the words of a text that are signed decimal numbers.
pub open spec fn numbers_in(words: Seq<Seq<char>>) -> Seq<i64>
    decreases words.len(),
{
    if words.len() == 0 {
        Seq::empty()
    } else {
        match signed(words.last()) {
            Some(n) => numbers_in(words.drop_last()).push(n as i64),
            None => numbers_in(words.drop_last()),
        }
    }
}

/// The four numbers between the first brackets of `s`.
pub open spec fn byte_range_in(s: Seq<u8>) -> Result<Seq<i64>, ErrorView> {
    match first_from(s, lit("["), 0) {
        None => Err(ErrorView::Malformed("ByteRange '[' missing"@)),
        Some(open) => match first_from(s, lit("]"), open) {
            None => Err(ErrorView::Malformed("ByteRange ']' missing"@)),
            Some(close) => {
                let inner = s.subrange(open + 1, close);
                if !valid_utf8(inner) {
                    Err(ErrorView::Malformed("ByteRange not ASCII"@))
                } else {
                    let nums = numbers_in(words_from(decode_utf8(inner), 0));
                    if nums.len() != 4 {
                        Err(ErrorView::Malformed("expected 4 ByteRange ints, got "@ + dec_text(nums.len())))
                    } else {
                        Ok(nums)
                    }
                }
            },
        },
    }
}

fn read_numbers(words: &Vec<Vec<char>>) -> (r: Vec<i64>)
    ensures
        r@ == numbers_in(texts(words@)),
{
    let mut out: Vec<i64> = Vec::new();
    let ghost v = texts(words@);
    let mut i: usize = 0;
    assert(v.take(0) =~= Seq::empty());
    while i < words.len()
        invariant
            i <= words.len(),
            v == texts(words@),
            out@ == numbers_in(v.take(i as int)),
        decreases words.len() - i,
    {
        proof {
            let t = v.take(i + 1);
            assert(t.drop_last() =~= v.take(i as int));
            assert(t.last() == words@[i as int]@);
        }
        if let Some(n) = parse_signed(&words[i]) {
            out.push(n);
        }
        i += 1;
    }
    assert(v.take(i as int) =~= v);
    out
}

/// The view of a result that carries four numbers.
pub open spec fn range_result(r: Result<[i64; 4], Error>) -> Result<Seq<i64>, ErrorView> {
    match r {
        Ok(a) => Ok(a@),
        Err(e) => Err(e@),
    }
}

/// Parse `[a b c d]` starting at a slice beginning with `/ByteRange`.
pub fn parse_byte_range(s: &[u8]) -> (r: Result<[i64; 4], Error>)
    ensures
        range_result(r) == byte_range_in(s@),
{
    let total: usize = s.len();
    let open: usize = match find_sub(s, raw("[")) {
        None => {
            return Err(malformed("ByteRange '[' missing"));
        },
        Some(i) => i,
    };
    let close: usize = match find_from(s, raw("]"), open) {
        None => {
            return Err(malformed("ByteRange ']' missing"));
        },
        Some(i) => i,
    };
    proof {
        lemma_brackets_apart(s@, open as int, close as int);
    }
    let inner: &str = match from_utf8(&s[open + 1..close]) {
        None => {
            return Err(malformed("ByteRange not ASCII"));
        },
        Some(t) => t,
    };
    let nums: Vec<i64> = read_numbers(&split_words(&chars_of(inner)));
    if nums.len() != 4 {
        let mut t: String = "expected 4 ByteRange ints, got ".to_owned();
        append_dec(&mut t, nums.len() as u64);
        return Err(Error::Malformed(t));
    }
    let r: [i64; 4] = [nums[0], nums[1], nums[2], nums[3]];
    assert(r@ =~= nums@);
    Ok(r)
}

proof fn lemma_brackets_apart(s: Seq<u8>, open: int, close: int)
    requires
        0 <= open,
        first_from(s, lit("["), 0) == Some(open),
        first_from(s, lit("]"), open) == Some(close),
    ensures
        open < close < s.len(),
{
    lemma_first_from(s, lit("["), 0);
    lemma_first_from(s, lit("]"), open);
    reveal_strlit("[");
    reveal_strlit("]");
    lemma_lit("[");
    lemma_lit("]");
    if open == close {
        assert(s.subrange(open, open + 1)[0] == lit("[")[0]);
        assert(s.subrange(open, open + 1)[0] == lit("]")[0]);
    }
}

/// The decoded hexadecimal string that follows `/Contents` at or after `br`.
pub open spec fn contents_after(pdf: Seq<u8>, br: int) -> Option<Seq<u8>> {
    match first_from(pdf, lit("/Contents"), br) {
        None => None,
        Some(from) => match first_from(pdf, lit("<"), from) {
            None => None,
            Some(lt) => match first_from(pdf, lit(">"), lt) {
                None => None,
                Some(gt) => unhex(pdf.subrange(lt + 1, gt)),
            },
        },
    }
}

/// Scan for the `/Contents <...>` hex string following `/ByteRange` at `br` and
/// decode it (fallback path only).
pub fn scan_contents(pdf: &[u8], br: usize) -> (r: Option<Vec<u8>>)
    requires
        br <= pdf.len(),
    ensures
        match contents_after(pdf@, br as int) {
            Some(v) => r is Some && r->0@ == v,
            None => r is None,
        },
{
    let total: usize = pdf.len();
    match find_from(pdf, raw("/Contents"), br) {
        None => None,
        Some(from) => match find_from(pdf, raw("<"), from) {
            None => None,
            Some(lt) => match find_from(pdf, raw(">"), lt) {
                None => None,
                Some(gt) => {
                    proof {
                        reveal_strlit("<");
                        reveal_strlit(">");
                        lemma_lit("<");
                        lemma_lit(">");
                        lemma_first_from(pdf@, lit("<"), from as int);
                        lemma_first_from(pdf@, lit(">"), lt as int);
                        if lt == gt {
                            assert(pdf@.subrange(lt as int, lt + 1)[0] == lit("<")[0]);
                            assert(pdf@.subrange(lt as int, lt + 1)[0] == lit(">")[0]);
                        }
                    }
                    hex_decode(&pdf[lt + 1..gt])
                },
            },
        },
    }
}

/// A blank between tokens.
pub open spec fn is_blank(b: u8) -> bool {
    b == 0x20 || b == 0x0d || b == 0x0a || b == 0x09
}

/// A byte that ends a name.
pub open spec fn ends_name(b: u8) -> bool {
    is_blank(b) || b == 0x2f || b == 0x3e || b == 0x5b || b == 0x28
}

/// The first index at or after `i` that holds no blank.
pub open spec fn skip_blanks(s: Seq<u8>, i: int) -> int
    decreases s.len() - i,
{
    if 0 <= i < s.len() && is_blank(s[i]) {
        skip_blanks(s, i + 1)
    } else {
        i
    }
}

/// The first index at or after `i` that ends a name, or the end.
pub open spec fn name_end(s: Seq<u8>, i: int) -> int
    decreases s.len() - i,
{
    if 0 <= i < s.len() && !ends_name(s[i]) {
        name_end(s, i + 1)
    } else {
        i
    }
}

/// The name behind the last `/SubFilter` in front of `br`.
pub open spec fn subfilter_in_front(pdf: Seq<u8>, br: int) -> Option<Seq<u8>> {
    match last_in(pdf.take(br), lit("/SubFilter")) {
        None => None,
        Some(pos) => {
            let j = skip_blanks(pdf, pos + lit("/SubFilter").len());
            if 0 <= j < pdf.len() && pdf[j] == 0x2f {
                Some(pdf.subrange(j + 1, name_end(pdf, j + 1)))
            } else {
                None
            }
        },
    }
}

/// Read the `/SubFilter` name that precedes the `/ByteRange` at `br` (each
/// signature dictionary writes SubFilter before ByteRange).
pub fn subfilter_before(pdf: &[u8], br: usize) -> (r: Option<Vec<u8>>)
    requires
        br <= pdf.len(),
    ensures
        match subfilter_in_front(pdf@, br as int) {
            Some(v) => r is Some && r->0@ == v,
            None => r is None,
        },
{
    let total: usize = pdf.len();
    let hay: &[u8] = &pdf[0..br];
    assert(hay@ =~= pdf@.take(br as int));
    let pos: usize = match find_last(hay, raw("/SubFilter")) {
        None => {
            return None;
        },
        Some(p) => p,
    };
    let first: usize = pos + raw("/SubFilter").len();
    let mut j: usize = first;
    while j < total && (pdf[j] == 0x20 || pdf[j] == 0x0d || pdf[j] == 0x0a || pdf[j] == 0x09)
        invariant
            total == pdf.len(),
            first <= j <= total,
            skip_blanks(pdf@, first as int) == skip_blanks(pdf@, j as int),
        decreases total - j,
    {
        j += 1;
    }
    if j >= total || pdf[j] != 0x2f {
        return None;
    }
    let start: usize = j + 1;
    let mut e: usize = start;
    while e < total && !(pdf[e] == 0x20 || pdf[e] == 0x0d || pdf[e] == 0x0a || pdf[e] == 0x09 || pdf[e] == 0x2f
        || pdf[e] == 0x3e || pdf[e] == 0x5b || pdf[e] == 0x28)
        invariant
            total == pdf.len(),
            start <= e <= total,
            name_end(pdf@, start as int) == name_end(pdf@, e as int),
        decreases total - e,
    {
        e += 1;
    }
    Some(to_vec(&pdf[start..e]))
}

/// The signatures at the occurrences of `/ByteRange` from `from` on: those with
/// four numbers and a hexadecimal `/Contents` behind it.
pub open spec fn scanned(pdf: Seq<u8>, from: int) -> Seq<SigView>
    decreases pdf.len() - from,
    via scanned_ends
{
    match first_from(pdf, lit("/ByteRange"), from) {
        None => Seq::empty(),
        Some(br) => {
            let rest = scanned(pdf, br + lit("/ByteRange").len());
            match (byte_range_in(pdf.skip(br)), contents_after(pdf, br)) {
                (Ok(byte_range), Some(contents)) => seq![
                    SigView {
                        byte_range,
                        contents,
                        is_timestamp: subfilter_in_front(pdf, br) == Some(lit("ETSI.RFC3161")),
                    },
                ] + rest,
                _ => rest,
            }
        },
    }
}

#[via_fn]
proof fn scanned_ends(pdf: Seq<u8>, from: int) {
    if from >= 0 {
        lemma_first_from(pdf, lit("/ByteRange"), from);
    }
    reveal_strlit("/ByteRange");
    lemma_lit("/ByteRange");
}

/// Fallback enumeration for documents that fail to parse: scan the raw bytes for
/// each `/ByteRange`.
pub fn collect_signatures_by_scan(pdf: &[u8]) -> (r: Vec<SigLoc>)
    ensures
        sig_views(r@) == scanned(pdf@, 0),
{
    let total: usize = pdf.len();
    let mut out: Vec<SigLoc> = Vec::new();
    let mut from: usize = 0;
    proof {
        assert(sig_views(out@) =~= Seq::empty());
        reveal_strlit("/ByteRange");
        lemma_lit("/ByteRange");
    }
    loop
        invariant
            total == pdf.len(),
            from <= total,
            lit("/ByteRange").len() == 10,
            sig_views(out@) + scanned(pdf@, from as int) =~= scanned(pdf@, 0),
        decreases total - from,
    {
        let br: usize = match find_from(pdf, raw("/ByteRange"), from) {
            None => {
                assert(scanned(pdf@, from as int) =~= Seq::empty());
                return out;
            },
            Some(i) => i,
        };
        let ghost before = sig_views(out@);
        let ghost rest = scanned(pdf@, br + 10);
        let tail: &[u8] = &pdf[br..total];
        assert(tail@ =~= pdf@.skip(br as int));
        match (parse_byte_range(tail), scan_contents(pdf, br)) {
            (Ok(byte_range), Some(contents)) => {
                let is_timestamp: bool = match subfilter_before(pdf, br) {
                    Some(n) => bytes_eq(&n, raw("ETSI.RFC3161")),
                    None => false,
                };
                let s: SigLoc = SigLoc { byte_range, contents, is_timestamp };
                let ghost x = s@;
                out.push(s);
                proof {
                    assert(sig_views(out@) =~= before.push(x));
                    assert(scanned(pdf@, from as int) == seq![x] + rest);
                    assert(before.push(x) + rest =~= before + (seq![x] + rest));
                }
            },
            _ => {},
        }
        from = br + 10;
    }
}

// ---------------------------------------------------------------------------
// Either

/// The signatures of a document: by its structure where it can be parsed,
/// otherwise by scanning.
pub open spec fn signatures_of(pdf: Seq<u8>) -> Seq<SigView> {
    match loaded(pdf) {
        Ok(doc) => in_file_order(signatures_among(doc.objects)),
        Err(_) => scanned(pdf, 0),
    }
}

/// Locate every signature by document **structure** — the signature dictionaries
/// (`/ByteRange` + `/Contents`) reachable in the parsed object set — rather than
/// by scanning the raw bytes for `/ByteRange`, which could match a string,
/// stream or comment. Reads `/ByteRange` and `/SubFilter` from the dictionary,
/// so it does not depend on key order. Falls back to a byte scan only if the
/// document cannot be parsed at all.
pub fn collect_signatures(pdf: &[u8]) -> (r: Vec<SigLoc>)
    ensures
        sig_views(r@) == signatures_of(pdf@),
{
    match load_document(pdf) {
        Ok(doc) => document_signatures(&doc),
        Err(_) => collect_signatures_by_scan(pdf),
    }
}

/// A document holds a signature: one of its objects is a dictionary with it.
pub open spec fn holds_signature(doc: Doc, s: SigView) -> bool {
    exists|i: int|
        0 <= i < doc.objects.len() && (#[trigger] doc.objects[i]).1 is Dictionary && signature_in(
            doc.objects[i].1->Dictionary_0,
        ) == Some(s)
}

proof fn lemma_among(objects: Seq<(crate::object::ObjectId, Obj)>, i: int, s: SigView)
    requires
        0 <= i < objects.len(),
        objects[i].1 is Dictionary,
        signature_in(objects[i].1->Dictionary_0) == Some(s),
    ensures
        signatures_among(objects).contains(s),
    decreases objects.len(),
{
    let t = objects.drop_last();
    let r = signatures_among(t);
    let all = signatures_among(objects);
    if i < t.len() {
        lemma_among(t, i, s);
        let k = choose|k: int| 0 <= k < r.len() && r[k] == s;
        assert(all[k] == s);
    } else {
        assert(all[r.len() as int] == s);
    }
}

/// Every signature that a parsed document holds is found, and so is every signature
/// that scanning finds where the document cannot be parsed.
pub proof fn law_signatures_are_found(pdf: Seq<u8>, s: SigView)
    requires
        match loaded(pdf) {
            Ok(doc) => holds_signature(doc, s),
            Err(_) => scanned(pdf, 0).contains(s),
        },
    ensures
        signatures_of(pdf).contains(s),
{
    broadcast use vstd::seq_lib::group_to_multiset_ensures;

    if let Ok(doc) = loaded(pdf) {
        let i = choose|i: int|
            0 <= i < doc.objects.len() && (#[trigger] doc.objects[i]).1 is Dictionary && signature_in(
                doc.objects[i].1->Dictionary_0,
            ) == Some(s);
        lemma_among(doc.objects, i, s);
        let r = signatures_among(doc.objects);
        law_file_order(r);
        assert(r.to_multiset().count(s) > 0);
        assert(in_file_order(r).to_multiset().count(s) > 0);
    }
}

} // verus!
