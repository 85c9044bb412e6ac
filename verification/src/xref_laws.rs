//! What the cross-reference section of an update says of its objects.
use vstd::prelude::*;

use crate::document::Doc;
use crate::incremental::{
    be4, chain_bytes, entries_of, file_end, id_bytes, index_bytes, row_bytes, rows_bytes, run_end, startxref, stream_entries, stream_rest, stream_section,
    table_bytes, table_section, updated, with_line_end, with_objects, xref_data, xref_stream_used, zlib, Entry, Item,
};
use crate::object::{lookup, Obj, ObjectId};
use crate::update::appended;
use crate::util::{be_value, dec, dec_padded, digits_value, lemma_dec, lemma_dec_len, lemma_lit, lit, occurs_at, pow10};

verus! {

proof fn lemma_be4(n: nat)
    requires
        n < 0x1_0000_0000,
    ensures
        be4(n).len() == 4,
        be_value(be4(n)) == n,
{
    let s = be4(n);
    reveal_with_fuel(be_value, 5);
    let (a, b, c) = (s.drop_last(), s.drop_last().drop_last(), s.drop_last().drop_last().drop_last());
    assert(c.drop_last() =~= Seq::empty());
    assert(c.last() == s[0] && b.last() == s[1] && a.last() == s[2]);
    assert(be_value(c) == s[0] as nat);
    assert(be_value(b) == s[0] as nat * 256 + s[1] as nat);
    assert(be_value(a) == (s[0] as nat * 256 + s[1] as nat) * 256 + s[2] as nat);
}

/// In a cross-reference stream each object has seven bytes: that it is in use, where it
/// stands in four and its generation in two.
pub proof fn law_stream_rows(e: Seq<Entry>, k: int)
    requires
        0 <= k < e.len(),
        e[k].2 < 0x1_0000_0000,
    ensures
        xref_data(e).len() == 7 * e.len(),
        xref_data(e)[7 * k] == 1,
        be_value(xref_data(e).subrange(7 * k + 1, 7 * k + 5)) == e[k].2,
        be_value(xref_data(e).subrange(7 * k + 5, 7 * k + 7)) == e[k].1,
    decreases e.len(),
{
    let t = e.drop_last();
    let all = xref_data(e);
    let rest = xref_data(t);
    lemma_xref_len(t);
    if k < t.len() {
        law_stream_rows(t, k);
        assert(all.subrange(7 * k + 1, 7 * k + 5) =~= rest.subrange(7 * k + 1, 7 * k + 5));
        assert(all.subrange(7 * k + 5, 7 * k + 7) =~= rest.subrange(7 * k + 5, 7 * k + 7));
    } else {
        lemma_be4(e[k].2);
        assert(all.subrange(7 * k + 1, 7 * k + 5) =~= be4(e[k].2));
        let g = seq![(e[k].1 as nat / 256) as u8, (e[k].1 as nat % 256) as u8];
        assert(all.subrange(7 * k + 5, 7 * k + 7) =~= g);
        reveal_with_fuel(be_value, 3);
        assert(g.drop_last().drop_last() =~= Seq::empty());
        assert(g.drop_last().last() == g[0]);
    }
}

proof fn lemma_xref_len(e: Seq<Entry>)
    ensures
        xref_data(e).len() == 7 * e.len(),
    decreases e.len(),
{
    if e.len() > 0 {
        lemma_xref_len(e.drop_last());
    }
}

proof fn lemma_zeros(z: Seq<u8>, s: Seq<u8>)
    requires
        forall|i: int| 0 <= i < z.len() ==> (#[trigger] z[i]) == 0x30,
    ensures
        digits_value(z + s) == digits_value(s),
    decreases s.len(), z.len(),
{
    if s.len() == 0 {
        assert(z + s =~= z);
        if z.len() > 0 {
            let y = z.drop_last();
            assert forall|i: int| 0 <= i < y.len() implies (#[trigger] y[i]) == 0x30 by {
                assert(y[i] == z[i]);
            }
            lemma_zeros(y, s);
            assert(y + s =~= y);
            assert(z[z.len() - 1] == 0x30);
        }
    } else {
        lemma_zeros(z, s.drop_last());
        assert((z + s).drop_last() =~= z + s.drop_last());
        assert((z + s).last() == s.last());
    }
}

proof fn lemma_padded(n: nat, w: nat)
    requires
        w >= 1,
        n < pow10(w),
    ensures
        dec_padded(n, w).len() == w,
        digits_value(dec_padded(n, w)) == n,
{
    lemma_dec(n);
    lemma_dec_len(n, w);
    let d = dec(n);
    let z = Seq::new((w - d.len()) as nat, |i: int| 0x30u8);
    assert(dec_padded(n, w) =~= z + d);
    lemma_zeros(z, d);
}

/// In a cross-reference table each object has a row: where it stands in ten digits, its
/// generation in five, and that it is in use.
pub proof fn law_table_row(e: Entry)
    requires
        e.2 < pow10(10),
    ensures
        row_bytes(e).len() == 20,
        digits_value(row_bytes(e).take(10)) == e.2,
        row_bytes(e)[10] == 0x20,
        digits_value(row_bytes(e).subrange(11, 16)) == e.1,
        row_bytes(e)[16] == 0x20 && row_bytes(e)[17] == 0x6e && row_bytes(e)[18] == 0x0d && row_bytes(e)[19] == 0x0a,
{
    assert(pow10(5) == 100_000) by {
        reveal_with_fuel(pow10, 6);
    }
    lemma_padded(e.2, 10);
    lemma_padded(e.1 as nat, 5);
    reveal_strlit(" ");
    reveal_strlit(" n\r\n");
    lemma_lit(" ");
    lemma_lit(" n\r\n");
    let r = row_bytes(e);
    assert(r.take(10) =~= dec_padded(e.2, 10));
    assert(r.subrange(11, 16) =~= dec_padded(e.1 as nat, 5));
}

proof fn lemma_rows(e: Seq<Entry>, k: int)
    requires
        0 <= k < e.len(),
        forall|i: int| 0 <= i < e.len() ==> (#[trigger] e[i]).2 < pow10(10),
    ensures
        rows_bytes(e).len() == 20 * e.len(),
        rows_bytes(e).subrange(20 * k, 20 * k + 20) == row_bytes(e[k]),
    decreases e.len(),
{
    let t = e.drop_last();
    assert forall|i: int| 0 <= i < t.len() implies (#[trigger] t[i]).2 < pow10(10) by {
        assert(t[i] == e[i]);
    }
    assert(e[e.len() - 1].2 < pow10(10));
    law_table_row(e.last());
    if t.len() > 0 {
        lemma_rows(t, if k < t.len() { k } else { 0 });
    } else {
        assert(t =~= Seq::empty());
        assert(rows_bytes(t) =~= Seq::empty());
    }
    assert(rows_bytes(e) == rows_bytes(t) + row_bytes(e.last()));
    if k < t.len() {
        assert(rows_bytes(e).subrange(20 * k, 20 * k + 20) =~= rows_bytes(t).subrange(20 * k, 20 * k + 20));
    } else {
        assert(rows_bytes(e).subrange(20 * k, 20 * k + 20) =~= row_bytes(e[k]));
    }
}

/// The rows of a run of objects stand one behind the other, in the order of the objects.
pub proof fn law_table_rows(e: Seq<Entry>, k: int)
    requires
        0 <= k < e.len(),
        forall|i: int| 0 <= i < e.len() ==> (#[trigger] e[i]).2 < pow10(10),
    ensures
        rows_bytes(e).len() == 20 * e.len(),
        rows_bytes(e).subrange(20 * k, 20 * k + 20) == row_bytes(e[k]),
{
    lemma_rows(e, k);
}

/// A run of objects is as long as their numbers follow each other.
pub proof fn law_runs(e: Seq<Entry>, i: int)
    requires
        0 <= i < e.len(),
    ensures
        i <= run_end(e, i) < e.len(),
        forall|k: int| i <= k <= run_end(e, i) ==> (#[trigger] e[k]).0 == e[i].0 + (k - i),
        run_end(e, i) + 1 < e.len() ==> e[run_end(e, i) + 1].0 != e[i].0 + (run_end(e, i) + 1 - i),
    decreases e.len() - i,
{
    if i + 1 < e.len() && e[i + 1].0 == e[i].0 + 1 {
        law_runs(e, i + 1);
    }
}

/// The trailer of an update: how many numbers there are, the catalog, and the section before.
pub open spec fn trailer_entries(size: nat, root: ObjectId, prev: nat) -> Seq<u8> {
    lit("/Size ") + dec(size) + lit(" /Root ") + dec(root.0 as nat) + lit(" ") + dec(root.1 as nat) + lit(" R /Prev ") + dec(
        prev,
    )
}

proof fn lemma_middle(a: Seq<u8>, b: Seq<u8>, c: Seq<u8>)
    ensures
        occurs_at(a + b + c, b, a.len() as int),
{
    assert((a + b + c).subrange(a.len() as int, (a.len() + b.len()) as int) =~= b);
}

proof fn lemma_table_trailer(e: Seq<Entry>, size: u32, root: ObjectId, prev: nat, id: Option<Obj>) -> (r: (Seq<u8>, Seq<u8>))
    ensures
        table_section(e, size, root, prev, id) == r.0 + trailer_entries(size as nat, root, prev) + r.1,
{
    reveal_strlit("trailer\n<< /Size ");
    reveal_strlit("trailer\n<< ");
    reveal_strlit("/Size ");
    lemma_lit("trailer\n<< /Size ");
    lemma_lit("trailer\n<< ");
    lemma_lit("/Size ");
    assert(lit("trailer\n<< /Size ") =~= lit("trailer\n<< ") + lit("/Size "));
    let a = lit("xref\n") + (table_bytes(e, 0) + lit("trailer\n<< "));
    let c = id_bytes(id) + lit(" >>\n");
    assert(table_section(e, size, root, prev, id) =~= a + trailer_entries(size as nat, root, prev) + c);
    (a, c)
}

proof fn lemma_stream_trailer(e: Seq<Entry>, size: u32, root: ObjectId, prev: nat, id: Option<Obj>) -> (r: (
    Seq<u8>,
    Seq<u8>,
))
    ensures
        stream_section(e, size, root, prev, id) == r.0 + trailer_entries(size as nat + 1, root, prev) + r.1,
{
    reveal_strlit(" 0 obj\n<< /Type /XRef /Size ");
    reveal_strlit(" 0 obj\n<< /Type /XRef ");
    reveal_strlit("/Size ");
    lemma_lit(" 0 obj\n<< /Type /XRef /Size ");
    lemma_lit(" 0 obj\n<< /Type /XRef ");
    lemma_lit("/Size ");
    assert(lit(" 0 obj\n<< /Type /XRef /Size ") =~= lit(" 0 obj\n<< /Type /XRef ") + lit("/Size "));
    let t = trailer_entries(size as nat + 1, root, prev);
    let f = lit(" 0 obj\n<< /Type /XRef ");
    let z = zlib(xref_data(e));
    let p = lit(" 0 obj\n<< /Type /XRef /Size ") + dec(size as nat + 1) + chain_bytes(root, prev);
    assert(p =~= f + t);
    let q1 = p + lit(" /W [1 4 2] /Index [");
    let q2 = q1 + index_bytes(e, 0);
    let q3 = q2 + lit("]");
    let q4 = q3 + id_bytes(id);
    let q5 = q4 + lit(" /Filter /FlateDecode /Length ");
    let q6 = q5 + dec(z.len());
    let q7 = q6 + lit(" >>\nstream\n");
    let q8 = q7 + z;
    let q = q8 + lit("\nendstream\nendobj\n");
    assert(p.take(p.len() as int) =~= p);
    lemma_begins(p, p, lit(" /W [1 4 2] /Index ["));
    lemma_begins(p, q1, index_bytes(e, 0));
    lemma_begins(p, q2, lit("]"));
    lemma_begins(p, q3, id_bytes(id));
    lemma_begins(p, q4, lit(" /Filter /FlateDecode /Length "));
    lemma_begins(p, q5, dec(z.len()));
    lemma_begins(p, q6, lit(" >>\nstream\n"));
    lemma_begins(p, q7, z);
    lemma_begins(p, q8, lit("\nendstream\nendobj\n"));
    assert(stream_rest(e, size, root, prev, id) == q);
    let c = q.skip(p.len() as int);
    assert(q =~= p + c);
    let a = dec(size as nat) + f;
    assert(stream_section(e, size, root, prev, id) =~= a + t + c);
    (a, c)
}

proof fn lemma_begins(p: Seq<u8>, q: Seq<u8>, x: Seq<u8>)
    requires
        p.len() <= q.len(),
        q.take(p.len() as int) == p,
    ensures
        (q + x).take(p.len() as int) == p,
        p.len() <= (q + x).len(),
{
    assert((q + x).take(p.len() as int) =~= q.take(p.len() as int));
}

/// The section that an update appends names the catalog and points back to the section
/// that was the last before; the object of a cross-reference stream is counted too.
pub proof fn law_update_points_back(
    base: Seq<u8>,
    s: Seq<Item>,
    size: u32,
    root: ObjectId,
    prev: nat,
    id: Option<Obj>,
) -> (i: int)
    ensures
        i >= base.len(),
        occurs_at(
            updated(base, s, size, root, prev, id),
            trailer_entries(
                if xref_stream_used(base) {
                    size as nat + 1
                } else {
                    size as nat
                },
                root,
                prev,
            ),
            i,
        ),
{
    let head = with_objects(base, s);
    let tail = file_end(head.len());
    if xref_stream_used(base) {
        let e = stream_entries(base, s, size);
        let (a, c) = lemma_stream_trailer(e, size, root, prev, id);
        let t = trailer_entries(size as nat + 1, root, prev);
        assert(head + (a + t + c) + tail =~= (head + a) + t + (c + tail));
        lemma_middle(head + a, t, c + tail);
        (head + a).len() as int
    } else {
        let e = entries_of(with_line_end(base).len(), s);
        let (a, c) = lemma_table_trailer(e, size, root, prev, id);
        let t = trailer_entries(size as nat, root, prev);
        assert(head + (a + t + c) + tail =~= (head + a) + t + (c + tail));
        lemma_middle(head + a, t, c + tail);
        (head + a).len() as int
    }
}

/// What is appended to a file is an update whose section points back to the last one of the
/// file and takes the file's identifier over.
pub proof fn law_appended_update(pdf: Seq<u8>, doc: Doc, s: Seq<Item>, size: int, root: ObjectId)
    requires
        0 <= size,
    ensures
        appended(pdf, doc, s, size, root) matches Ok(out) ==> startxref(pdf) is Some && out == updated(
            pdf,
            s,
            size as u32,
            root,
            startxref(pdf)->0,
            lookup(doc.trailer, lit("ID")),
        ),
        startxref(pdf) matches Some(n) ==> n <= pdf.len() && size < u32::MAX ==> appended(pdf, doc, s, size, root) is Ok,
{
}

} // verus!
