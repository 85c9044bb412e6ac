//! Incremental update writer.
//!
//! Instead of re-serializing the whole document (which would invalidate any
//! pre-existing signature), an incremental update keeps the original bytes
//! **verbatim** and appends the new and modified objects, a cross-reference
//! section that lists only those objects, and a trailer whose `/Prev` chains
//! back to the previous cross-reference section.
use vstd::prelude::*;

use crate::object::{Obj, Object, ObjectId};
use crate::util::{
    concat_assoc, dec, dec_padded, digits_value, find_last, is_digit, last_in, lemma_dec, lemma_dec_len, lemma_last_upto, lemma_lit, lemma_skip_digits, lit, matches_at,
    occurs_at, pow10, push_dec, push_dec_padded, push_str, raw, skip_digits, skip_space, skip_space_from,
};
use crate::writer::{object_bytes, write_object};

verus! {

// ---------------------------------------------------------------------------
// Where the previous cross-reference section is

/// The run of digits behind the last `startxref` keyword: its first and last
/// bound, where there is such a keyword.
pub open spec fn startxref_digits(buf: Seq<u8>) -> Option<(int, int)> {
    match last_in(buf, lit("startxref")) {
        None => None,
        Some(p) => {
            let i = skip_space(buf, p + lit("startxref").len());
            Some((i, skip_digits(buf, i)))
        },
    }
}

/// The number behind the last `startxref` keyword.
pub open spec fn startxref(buf: Seq<u8>) -> Option<nat> {
    match startxref_digits(buf) {
        None => None,
        Some((i, e)) => if i < e { Some(digits_value(buf.subrange(i, e))) } else { None },
    }
}

/// The last `startxref` of the file, if it has any, gives an offset that lies
/// in the file.
pub open spec fn startxref_sound(buf: Seq<u8>) -> bool {
    startxref(buf) matches Some(n) ==> n <= buf.len()
}

pub proof fn lemma_digits_value_grows(s: Seq<u8>, k: int)
    requires
        0 <= k <= s.len(),
        forall|i: int| 0 <= i < s.len() ==> is_digit(#[trigger] s[i]),
    ensures
        digits_value(s.take(k)) <= digits_value(s),
    decreases s.len() - k,
{
    if k < s.len() {
        lemma_digits_value_grows(s, k + 1);
        assert(s.take(k + 1).drop_last() =~= s.take(k));
        assert(s.take(k + 1).last() == s[k]);
    } else {
        assert(s.take(k) =~= s);
    }
}

/// Reads the number behind the last `startxref`; the flag tells that it is
/// larger than any `usize`.
fn read_startxref(buf: &[u8]) -> (r: Option<(usize, bool)>)
    ensures
        match startxref(buf@) {
            None => r is None,
            Some(n) => r matches Some((v, big)) && (if big { n > usize::MAX } else { v == n }),
        },
{
    let pos: usize = match find_last(buf, raw("startxref")) {
        None => {
            return None;
        },
        Some(p) => p,
    };
    let total: usize = buf.len();
    let first: usize = skip_space_from(buf, pos + raw("startxref").len());
    let mut i: usize = first;
    let mut n: usize = 0;
    let mut big: bool = false;
    proof {
        lemma_skip_digits(buf@, first as int);
        assert(buf@.subrange(first as int, first as int) =~= Seq::empty());
    }
    let ghost e = skip_digits(buf@, first as int);
    let ghost all = buf@.subrange(first as int, e);
    while i < buf.len() && 0x30 <= buf[i] && buf[i] <= 0x39
        invariant
            first <= i <= e <= buf.len(),
            e == skip_digits(buf@, first as int),
            e == skip_digits(buf@, i as int),
            all == buf@.subrange(first as int, e),
            forall|k: int| 0 <= k < all.len() ==> is_digit(#[trigger] all[k]),
            !big ==> n == digits_value(buf@.subrange(first as int, i as int)),
            big ==> digits_value(all) > usize::MAX,
        decreases buf.len() - i,
    {
        proof {
            lemma_skip_digits(buf@, i + 1);
            let t = buf@.subrange(first as int, i + 1);
            assert(t.drop_last() =~= buf@.subrange(first as int, i as int));
            assert(t =~= all.take(i + 1 - first));
            lemma_digits_value_grows(all, i + 1 - first);
        }
        let d: usize = (buf[i] - 0x30) as usize;
        if !big {
            match n.checked_mul(10) {
                None => {
                    big = true;
                },
                Some(m) => match m.checked_add(d) {
                    None => {
                        big = true;
                    },
                    Some(v) => {
                        n = v;
                    },
                },
            }
        }
        i += 1;
    }
    if i > first {
        Some((n, big))
    } else {
        None
    }
}

/// Offset of the most recent `startxref` value in `buf` (the previous xref).
pub fn last_startxref(buf: &[u8]) -> (r: Option<usize>)
    requires
        startxref(buf@) matches Some(n) ==> n <= usize::MAX,
    ensures
        match startxref(buf@) {
            None => r is None,
            Some(n) => r is Some && r->0 == n,
        },
{
    match read_startxref(buf) {
        None => None,
        Some((n, _)) => Some(n),
    }
}

/// Tests whether the last `startxref` points into the file.
pub fn startxref_in_bounds(buf: &[u8]) -> (r: bool)
    ensures
        r == startxref_sound(buf@),
{
    let total: usize = buf.len();
    match read_startxref(buf) {
        None => true,
        Some((n, big)) => !big && n <= total,
    }
}

/// The most recent cross-reference section is a stream: `startxref` points,
/// white space aside, at something else than the `xref` keyword.
pub open spec fn xref_stream_used(buf: Seq<u8>) -> bool {
    match startxref(buf) {
        None => false,
        Some(n) => !occurs_at(buf, lit("xref"), skip_space(buf, n as int)),
    }
}

/// True if the file's most recent cross-reference is a stream (not an `xref`
/// table), i.e. `startxref` points at an object rather than the `xref` keyword.
pub fn uses_xref_stream(buf: &[u8]) -> (r: bool)
    requires
        startxref_sound(buf@),
    ensures
        r == xref_stream_used(buf@),
{
    let total: usize = buf.len();
    match last_startxref(buf) {
        None => false,
        Some(off) => {
            let i: usize = skip_space_from(buf, off);
            !matches_at(buf, raw("xref"), i)
        },
    }
}

// ---------------------------------------------------------------------------
// The objects of an update

/// An object of an update section.
pub struct Item {
    pub id: u32,
    pub gen: u16,
    pub obj: Obj,
}

/// The items that a list of objects stands for.
pub open spec fn items(a: Seq<(u32, u16, Object)>) -> Seq<Item> {
    Seq::new(a.len(), |i: int| Item { id: a[i].0, gen: a[i].1, obj: a[i].2@ })
}

/// Object numbers come once each, in increasing order.
pub open spec fn ordered(s: Seq<Item>) -> bool {
    forall|i: int, j: int| 0 <= i < j < s.len() ==> (#[trigger] s[i]).id < (#[trigger] s[j]).id
}

/// The items with `x` among them: in the place of an item with its number,
/// otherwise between its neighbours.
pub open spec fn insert_item(s: Seq<Item>, x: Item) -> Seq<Item>
    decreases s.len(),
{
    if s.len() == 0 || s.last().id < x.id {
        s.push(x)
    } else if s.last().id == x.id {
        s.drop_last().push(x)
    } else {
        insert_item(s.drop_last(), x).push(s.last())
    }
}

/// Queueing an object keeps the order, puts the object under its number and
/// keeps what is queued under every other number.
pub proof fn law_insert_item(s: Seq<Item>, x: Item)
    requires
        ordered(s),
    ensures
        ordered(insert_item(s, x)),
        insert_item(s, x).contains(x),
        forall|y: Item| y.id != x.id ==> (insert_item(s, x).contains(y) <==> s.contains(y)),
    decreases s.len(),
{
    let r = insert_item(s, x);
    if s.len() == 0 || s.last().id < x.id {
        assert(r.last() == x);
        assert forall|y: Item| y.id != x.id implies (r.contains(y) <==> s.contains(y)) by {
            if s.contains(y) {
                let i = choose|i: int| 0 <= i < s.len() && s[i] == y;
                assert(r[i] == y);
            }
            if r.contains(y) {
                let i = choose|i: int| 0 <= i < r.len() && r[i] == y;
                assert(s[i] == y);
            }
        }
    } else if s.last().id == x.id {
        assert(r.last() == x);
        assert forall|y: Item| y.id != x.id implies (r.contains(y) <==> s.contains(y)) by {
            if s.contains(y) {
                let i = choose|i: int| 0 <= i < s.len() && s[i] == y;
                assert(r[i] == y);
            }
            if r.contains(y) {
                let i = choose|i: int| 0 <= i < r.len() && r[i] == y;
                assert(s[i] == y);
            }
        }
    } else {
        let t = s.drop_last();
        law_insert_item(t, x);
        let q = insert_item(t, x);
        let i = choose|i: int| 0 <= i < q.len() && q[i] == x;
        assert(r[i] == x);
        assert forall|y: Item| y.id != x.id implies (r.contains(y) <==> s.contains(y)) by {
            if s.contains(y) {
                let k = choose|k: int| 0 <= k < s.len() && s[k] == y;
                if k < t.len() {
                    assert(t[k] == y);
                    assert(t.contains(y));
                    assert(q.contains(y));
                    let m = choose|m: int| 0 <= m < q.len() && q[m] == y;
                    assert(r[m] == y);
                } else {
                    assert(r.last() == y);
                }
            }
            if r.contains(y) {
                let k = choose|k: int| 0 <= k < r.len() && r[k] == y;
                if k < q.len() {
                    assert(q[k] == y);
                    assert(q.contains(y));
                    assert(t.contains(y));
                    let m = choose|m: int| 0 <= m < t.len() && t[m] == y;
                    assert(s[m] == y);
                } else {
                    assert(s.last() == y);
                }
            }
        }
        assert forall|a: int| 0 <= a < q.len() implies (#[trigger] q[a]).id < s.last().id by {
            if q[a].id != x.id {
                assert(q.contains(q[a]));
                assert(t.contains(q[a]));
                let m = choose|m: int| 0 <= m < t.len() && t[m] == q[a];
                assert(s[m] == q[a]);
            }
        }
        assert forall|a: int, b: int| 0 <= a < b < r.len() implies (#[trigger] r[a]).id < (#[trigger] r[b]).id by {
            assert(r[a] == q[a]);
            if b < q.len() {
                assert(r[b] == q[b]);
            }
        }
    }
}

proof fn lemma_insert_at(s: Seq<Item>, x: Item, k: int)
    requires
        ordered(s),
        0 <= k <= s.len(),
        forall|i: int| 0 <= i < k ==> (#[trigger] s[i]).id < x.id,
        k < s.len() ==> s[k].id >= x.id,
    ensures
        insert_item(s, x) == (if k < s.len() && s[k].id == x.id { s.update(k, x) } else { s.insert(k, x) }),
    decreases s.len(),
{
    if s.len() == 0 || s.last().id < x.id {
        assert(k == s.len());
        assert(s.insert(k, x) =~= s.push(x));
    } else if s.last().id == x.id {
        if k < s.len() - 1 {
            assert(s[k].id < s[s.len() - 1].id);
        }
        assert(s.update(k, x) =~= s.drop_last().push(x));
    } else {
        let t = s.drop_last();
        lemma_insert_at(t, x, k);
        if k < s.len() && s[k].id == x.id {
            assert(t.update(k, x).push(s.last()) =~= s.update(k, x));
        } else {
            assert(t.insert(k, x).push(s.last()) =~= s.insert(k, x));
        }
    }
}

/// Accumulates the objects to append and renders the updated file.
pub struct Incremental<'a> {
    original: &'a [u8],
    objects: Vec<(u32, u16, Object)>,
}

impl<'a> Incremental<'a> {
    /// The bytes that the update is appended to.
    pub closed spec fn base(&self) -> Seq<u8> {
        self.original@
    }

    /// The objects queued so far, by increasing number.
    pub closed spec fn view(&self) -> Seq<Item> {
        items(self.objects@)
    }

    /// No object number is queued twice.
    pub open spec fn wf(&self) -> bool {
        ordered(self@)
    }

    /// An update without objects.
    pub fn new(original: &'a [u8]) -> (r: Self)
        ensures
            r.wf(),
            r.base() == original@,
            r@ == Seq::<Item>::empty(),
    {
        let r = Self { original, objects: Vec::new() };
        assert(r@ =~= Seq::<Item>::empty());
        r
    }

    /// Queue an object (new or modified) for the update section.
    pub fn add(&mut self, id: ObjectId, obj: Object)
        requires
            old(self).wf(),
        ensures
            final(self).wf(),
            final(self).base() == old(self).base(),
            final(self)@ == insert_item(old(self)@, (Item { id: id.0, gen: id.1, obj: obj@ })),
    {
        let ghost before = self@;
        let ghost x = Item { id: id.0, gen: id.1, obj: obj@ };
        let mut k: usize = 0;
        while k < self.objects.len() && self.objects[k].0 < id.0
            invariant
                before == self@,
                k <= self.objects.len(),
                forall|i: int| 0 <= i < k ==> (#[trigger] before[i]).id < id.0,
            decreases self.objects.len() - k,
        {
            assert(before[k as int].id < id.0);
            k += 1;
        }
        proof {
            law_insert_item(before, x);
            if k < self.objects.len() {
                assert(before[k as int].id == self.objects@[k as int].0);
            }
            lemma_insert_at(before, x, k as int);
        }
        if k < self.objects.len() && self.objects[k].0 == id.0 {
            self.objects.set(k, (id.0, id.1, obj));
            assert(self@ =~= before.update(k as int, x));
        } else {
            self.objects.insert(k, (id.0, id.1, obj));
            assert(self@ =~= before.insert(k as int, x));
        }
    }
}

// ---------------------------------------------------------------------------
// The update section

/// The original with a line end behind it, where it has none.
pub open spec fn with_line_end(b: Seq<u8>) -> Seq<u8> {
    if b.len() > 0 && b.last() == 0x0a {
        b
    } else {
        b.push(0x0au8)
    }
}

/// An indirect object as it is written.
pub open spec fn item_bytes(x: Item) -> Seq<u8> {
    dec(x.id as nat) + lit(" ") + dec(x.gen as nat) + lit(" obj\n") + object_bytes(x.obj) + lit("\nendobj\n")
}

/// The objects of the update, one behind the other.
pub open spec fn items_bytes(s: Seq<Item>) -> Seq<u8>
    decreases s.len(),
{
    if s.len() == 0 {
        Seq::empty()
    } else {
        items_bytes(s.drop_last()) + item_bytes(s.last())
    }
}

/// An entry of a cross-reference section: object number, generation, offset.
pub type Entry = (u32, u16, nat);

/// The entries of the objects that are written behind `start` bytes.
pub open spec fn entries_of(start: nat, s: Seq<Item>) -> Seq<Entry> {
    Seq::new(s.len(), |k: int| (s[k].id, s[k].gen, start + items_bytes(s.take(k)).len()))
}

/// The index at which the run of consecutive object numbers from `i` on ends.
pub open spec fn run_end(e: Seq<Entry>, i: int) -> int
    decreases e.len() - i,
{
    if 0 <= i && i + 1 < e.len() && e[i + 1].0 == e[i].0 + 1 {
        run_end(e, i + 1)
    } else {
        i
    }
}

/// One entry of a cross-reference table, twenty bytes for offsets of up to ten
/// digits.
pub open spec fn row_bytes(e: Entry) -> Seq<u8> {
    dec_padded(e.2, 10) + lit(" ") + dec_padded(e.1 as nat, 5) + lit(" n\r\n")
}

/// The entries of a subsection.
pub open spec fn rows_bytes(e: Seq<Entry>) -> Seq<u8>
    decreases e.len(),
{
    if e.len() == 0 {
        Seq::empty()
    } else {
        rows_bytes(e.drop_last()) + row_bytes(e.last())
    }
}

/// The subsections of a cross-reference table from entry `i` on.
pub open spec fn table_bytes(e: Seq<Entry>, i: int) -> Seq<u8>
    decreases e.len() - i,
    via table_bytes_ends
{
    if 0 <= i < e.len() {
        let j = run_end(e, i);
        dec(e[i].0 as nat) + lit(" ") + dec((j - i + 1) as nat) + lit("\n") + rows_bytes(e.subrange(i, j + 1))
            + table_bytes(e, j + 1)
    } else {
        Seq::empty()
    }
}

#[via_fn]
proof fn table_bytes_ends(e: Seq<Entry>, i: int) {
    if 0 <= i < e.len() {
        lemma_run_end(e, i);
    }
}

/// The pairs of the `/Index` array from entry `i` on.
pub open spec fn index_bytes(e: Seq<Entry>, i: int) -> Seq<u8>
    decreases e.len() - i,
    via index_bytes_ends
{
    if 0 <= i < e.len() {
        let j = run_end(e, i);
        dec(e[i].0 as nat) + lit(" ") + dec((j - i + 1) as nat) + (if j + 1 < e.len() {
            lit(" ") + index_bytes(e, j + 1)
        } else {
            Seq::empty()
        })
    } else {
        Seq::empty()
    }
}

#[via_fn]
proof fn index_bytes_ends(e: Seq<Entry>, i: int) {
    if 0 <= i < e.len() {
        lemma_run_end(e, i);
    }
}

proof fn lemma_run_end(e: Seq<Entry>, i: int)
    requires
        0 <= i < e.len(),
    ensures
        i <= run_end(e, i) < e.len(),
    decreases e.len() - i,
{
    if i + 1 < e.len() && e[i + 1].0 == e[i].0 + 1 {
        lemma_run_end(e, i + 1);
    }
}

/// The low four bytes of a number, the highest first.
pub open spec fn be4(n: nat) -> Seq<u8> {
    seq![
        ((n / 0x100_0000) % 256) as u8,
        ((n / 0x1_0000) % 256) as u8,
        ((n / 0x100) % 256) as u8,
        (n % 256) as u8,
    ]
}

/// The entries of a cross-reference stream with field widths one, four and two:
/// the type of an object in use, its offset, its generation.
pub open spec fn xref_data(e: Seq<Entry>) -> Seq<u8>
    decreases e.len(),
{
    if e.len() == 0 {
        Seq::empty()
    } else {
        xref_data(e.drop_last()) + seq![1u8] + be4(e.last().2) + seq![
            (e.last().1 as nat / 256) as u8,
            (e.last().1 as nat % 256) as u8,
        ]
    }
}

/// The entries with `x` among them, behind those whose number is not larger.
pub open spec fn insert_entry(e: Seq<Entry>, x: Entry) -> Seq<Entry>
    decreases e.len(),
{
    if e.len() == 0 || e.last().0 <= x.0 {
        e.push(x)
    } else {
        insert_entry(e.drop_last(), x).push(e.last())
    }
}

/// The `/ID` entry, where the document has one.
pub open spec fn id_bytes(id: Option<Obj>) -> Seq<u8> {
    match id {
        Some(o) => lit(" /ID ") + object_bytes(o),
        None => Seq::empty(),
    }
}

/// The `/Root` and `/Prev` entries.
pub open spec fn chain_bytes(root: ObjectId, prev: nat) -> Seq<u8> {
    lit(" /Root ") + dec(root.0 as nat) + lit(" ") + dec(root.1 as nat) + lit(" R /Prev ") + dec(prev)
}

/// The end of a file whose cross-reference section stands at `off`.
pub open spec fn file_end(off: nat) -> Seq<u8> {
    lit("startxref\n") + dec(off) + lit("\n%%EOF\n")
}

/// The original and the objects of the update, up to the cross-reference section.
pub open spec fn with_objects(base: Seq<u8>, s: Seq<Item>) -> Seq<u8> {
    with_line_end(base) + items_bytes(s)
}

/// A cross-reference table and its trailer.
pub open spec fn table_section(e: Seq<Entry>, size: u32, root: ObjectId, prev: nat, id: Option<Obj>) -> Seq<u8> {
    lit("xref\n") + table_rest(e, size, root, prev, id)
}

/// A cross-reference table after its keyword, and its trailer.
pub open spec fn table_rest(e: Seq<Entry>, size: u32, root: ObjectId, prev: nat, id: Option<Obj>) -> Seq<u8> {
    table_bytes(e, 0) + lit("trailer\n<< /Size ") + dec(size as nat) + chain_bytes(root, prev) + id_bytes(id) + lit(
        " >>\n",
    )
}

/// An update with a cross-reference table.
pub open spec fn table_update(
    base: Seq<u8>,
    s: Seq<Item>,
    size: u32,
    root: ObjectId,
    prev: nat,
    id: Option<Obj>,
) -> Seq<u8> {
    with_objects(base, s) + table_section(entries_of(with_line_end(base).len(), s), size, root, prev, id) + file_end(
        with_objects(base, s).len(),
    )
}

/// The entries of an update with a cross-reference stream, which lists itself
/// under the number `size`.
pub open spec fn stream_entries(base: Seq<u8>, s: Seq<Item>, size: u32) -> Seq<Entry> {
    insert_entry(entries_of(with_line_end(base).len(), s), (size, 0u16, with_objects(base, s).len()))
}

/// A cross-reference stream.
pub open spec fn stream_section(
    e: Seq<Entry>,
    size: u32,
    root: ObjectId,
    prev: nat,
    id: Option<Obj>,
) -> Seq<u8> {
    dec(size as nat) + stream_rest(e, size, root, prev, id)
}

/// A cross-reference stream after its object number.
pub open spec fn stream_rest(e: Seq<Entry>, size: u32, root: ObjectId, prev: nat, id: Option<Obj>) -> Seq<u8> {
    lit(" 0 obj\n<< /Type /XRef /Size ") + dec(size as nat + 1) + chain_bytes(root, prev)
        + lit(" /W [1 4 2] /Index [") + index_bytes(e, 0) + lit("]") + id_bytes(id) + lit(
        " /Filter /FlateDecode /Length ",
    ) + dec(zlib(xref_data(e)).len()) + lit(" >>\nstream\n") + zlib(xref_data(e)) + lit("\nendstream\nendobj\n")
}

/// An update with a cross-reference stream.
pub open spec fn stream_update(
    base: Seq<u8>,
    s: Seq<Item>,
    size: u32,
    root: ObjectId,
    prev: nat,
    id: Option<Obj>,
) -> Seq<u8> {
    with_objects(base, s) + stream_section(stream_entries(base, s, size), size, root, prev, id) + file_end(
        with_objects(base, s).len(),
    )
}

/// The updated file: it has the kind of cross-reference section that the
/// original has.
pub open spec fn updated(
    base: Seq<u8>,
    s: Seq<Item>,
    size: u32,
    root: ObjectId,
    prev: nat,
    id: Option<Obj>,
) -> Seq<u8> {
    if xref_stream_used(base) {
        stream_update(base, s, size, root, prev, id)
    } else {
        table_update(base, s, size, root, prev, id)
    }
}

/// What zlib compression at the default level makes of the bytes.
pub uninterp spec fn zlib(data: Seq<u8>) -> Seq<u8>;

/// Zlib-compress (PDF `FlateDecode`): `flate2::write::ZlibEncoder` at
/// `Compression::default()`, which writes into memory and so never fails. The
/// compressed bytes are a function of the data alone.
#[verifier::external_body]
pub(crate) fn zlib_compress(data: &[u8]) -> (r: Vec<u8>)
    ensures
        r@ == zlib(data@),
{
    let mut encoder = flate2::write::ZlibEncoder::new(Vec::new(), flate2::Compression::default());
    std::io::Write::write_all(&mut encoder, data).expect("zlib write");
    encoder.finish().expect("zlib finish")
}

/// The view of an optional object.
pub open spec fn opt_obj(o: Option<Object>) -> Option<Obj> {
    match o {
        Some(x) => Some(x@),
        None => None,
    }
}

/// The entries that a list of offsets stands for.
pub open spec fn spots(v: Seq<(u32, u16, usize)>) -> Seq<Entry> {
    Seq::new(v.len(), |i: int| (v[i].0, v[i].1, v[i].2 as nat))
}

/// The last index of the run of consecutive object numbers from `i` on.
fn find_run_end(entries: &Vec<(u32, u16, usize)>, i: usize) -> (j: usize)
    requires
        i < entries.len(),
    ensures
        j == run_end(spots(entries@), i as int),
        i <= j < entries.len(),
{
    let mut j: usize = i;
    while j + 1 < entries.len() && entries[j + 1].0 > entries[j].0 && entries[j + 1].0 - entries[j].0 == 1
        invariant
            i <= j < entries.len(),
            run_end(spots(entries@), i as int) == run_end(spots(entries@), j as int),
        decreases entries.len() - j,
    {
        j += 1;
    }
    j
}

impl<'a> Incremental<'a> {
    /// Writes the original and the objects, and lists where each one stands.
    fn render_objects(&self) -> (r: (Vec<u8>, Vec<(u32, u16, usize)>))
        ensures
            r.0@ == with_objects(self.base(), self@),
            spots(r.1@) == entries_of(with_line_end(self.base()).len(), self@),
    {
        let mut out: Vec<u8> = Vec::new();
        out.extend_from_slice(self.original);
        assert(out@ =~= self.base());
        if self.original.len() == 0 || self.original[self.original.len() - 1] != 0x0a {
            out.push(0x0a);
        }
        let ghost head = out@;
        assert(head == with_line_end(self.base()));
        let mut entries: Vec<(u32, u16, usize)> = Vec::new();
        let mut i: usize = 0;
        assert(head + items_bytes(self@.take(0)) =~= head);
        while i < self.objects.len()
            invariant
                i <= self.objects.len(),
                self@.len() == self.objects@.len(),
                head == with_line_end(self.base()),
                out@ == head + items_bytes(self@.take(i as int)),
                entries@.len() == i,
                forall|k: int|
                    0 <= k < i ==> (#[trigger] entries@[k]).0 == self@[k].id && entries@[k].1 == self@[k].gen
                        && entries@[k].2 == head.len() + items_bytes(self@.take(k)).len(),
            decreases self.objects.len() - i,
        {
            let off: usize = out.len();
            let ghost start = out@;
            let id: u32 = self.objects[i].0;
            let gen: u16 = self.objects[i].1;
            push_dec(&mut out, id as u64);
            push_str(&mut out, " ");
            push_dec(&mut out, gen as u64);
            push_str(&mut out, " obj\n");
            write_object(&mut out, &self.objects[i].2);
            push_str(&mut out, "\nendobj\n");
            entries.push((id, gen, off));
            proof {
                let t = self@.take(i + 1);
                assert(t.drop_last() =~= self@.take(i as int));
                assert(t.last() == self@[i as int]);
                assert(out@ =~= start + item_bytes(self@[i as int]));
                assert(out@ =~= head + items_bytes(t));
            }
            i += 1;
        }
        assert(self@.take(i as int) =~= self@);
        assert(spots(entries@) =~= entries_of(head.len(), self@));
        (out, entries)
    }

    /// Traditional cross-reference table incremental update.
    pub fn render_xref_table(&self, size: u32, root: ObjectId, prev: usize, id_array: Option<Object>) -> (r: Vec<u8>)
        ensures
            r@ == table_update(self.base(), self@, size, root, prev as nat, opt_obj(id_array)),
    {
        let (mut out, entries) = self.render_objects();
        let xref_off: usize = out.len();
        let ghost head = out@;
        let ghost e = spots(entries@);
        push_str(&mut out, "xref\n");
        let ghost start = out@;
        let mut i: usize = 0;
        while i < entries.len()
            invariant
                i <= entries.len(),
                e == spots(entries@),
                out@ + table_bytes(e, i as int) =~= start + table_bytes(e, 0),
            decreases entries.len() - i,
        {
            let ghost before = out@;
            let j: usize = find_run_end(&entries, i);
            push_dec(&mut out, entries[i].0 as u64);
            push_str(&mut out, " ");
            push_dec(&mut out, (j - i + 1) as u64);
            push_str(&mut out, "\n");
            let ghost rows = out@;
            assert(e.subrange(i as int, i as int) =~= Seq::empty());
            let mut k: usize = i;
            while k <= j
                invariant
                    i <= k <= j + 1,
                    j < entries.len(),
                    e == spots(entries@),
                    out@ == rows + rows_bytes(e.subrange(i as int, k as int)),
                decreases j + 1 - k,
            {
                let ghost row = out@;
                push_dec_padded(&mut out, entries[k].2 as u64, 10);
                push_str(&mut out, " ");
                push_dec_padded(&mut out, entries[k].1 as u64, 5);
                push_str(&mut out, " n\r\n");
                proof {
                    let t = e.subrange(i as int, k + 1);
                    assert(t.drop_last() =~= e.subrange(i as int, k as int));
                    assert(t.last() == e[k as int]);
                    assert(out@ =~= row + row_bytes(e[k as int]));
                    assert(out@ =~= rows + rows_bytes(t));
                }
                k += 1;
            }
            proof {
                assert(out@ =~= before + dec(e[i as int].0 as nat) + lit(" ") + dec((j - i + 1) as nat) + lit("\n")
                    + rows_bytes(e.subrange(i as int, j + 1)));
                assert(out@ + table_bytes(e, j + 1) =~= before + table_bytes(e, i as int));
            }
            i = j + 1;
        }
        assert(table_bytes(e, i as int) =~= Seq::empty());
        assert(out@ =~= start + table_bytes(e, 0));
        push_str(&mut out, "trailer\n<< /Size ");
        push_dec(&mut out, size as u64);
        push_chain(&mut out, root, prev);
        push_id(&mut out, &id_array);
        push_str(&mut out, " >>\n");
        assert(out@ =~= head + table_section(e, size, root, prev as nat, opt_obj(id_array)));
        push_file_end(&mut out, xref_off);
        out
    }

    /// Cross-reference **stream** incremental update (PDF 1.5+). The xref is a
    /// `/Type /XRef` stream object that also indexes itself.
    pub fn render_xref_stream(&self, size: u32, root: ObjectId, prev: usize, id_array: Option<Object>) -> (r: Vec<u8>)
        requires
            size < u32::MAX,
        ensures
            r@ == stream_update(self.base(), self@, size, root, prev as nat, opt_obj(id_array)),
    {
        let (mut out, mut entries) = self.render_objects();
        let xref_off: usize = out.len();
        let ghost head = out@;
        insert_spot(&mut entries, (size, 0, xref_off));
        let ghost e = spots(entries@);
        let mut data: Vec<u8> = Vec::new();
        let mut k: usize = 0;
        assert(xref_data(e.take(0)) =~= Seq::empty());
        while k < entries.len()
            invariant
                k <= entries.len(),
                e == spots(entries@),
                data@ == xref_data(e.take(k as int)),
            decreases entries.len() - k,
        {
            let off: u64 = entries[k].2 as u64;
            let gen: u16 = entries[k].1;
            let ghost before = data@;
            data.push(1);
            data.push(((off / 0x100_0000) % 256) as u8);
            data.push(((off / 0x1_0000) % 256) as u8);
            data.push(((off / 0x100) % 256) as u8);
            data.push((off % 256) as u8);
            data.push((gen / 256) as u8);
            data.push((gen % 256) as u8);
            proof {
                let t = e.take(k + 1);
                assert(t.drop_last() =~= e.take(k as int));
                assert(t.last() == e[k as int]);
                assert(data@ =~= xref_data(t));
            }
            k += 1;
        }
        assert(e.take(k as int) =~= e);
        let compressed: Vec<u8> = zlib_compress(&data);

        push_dec(&mut out, size as u64);
        push_str(&mut out, " 0 obj\n<< /Type /XRef /Size ");
        push_dec(&mut out, (size + 1) as u64);
        push_chain(&mut out, root, prev);
        push_str(&mut out, " /W [1 4 2] /Index [");
        let ghost start = out@;
        let mut i: usize = 0;
        while i < entries.len()
            invariant
                i <= entries.len(),
                e == spots(entries@),
                out@ + index_bytes(e, i as int) =~= start + index_bytes(e, 0),
            decreases entries.len() - i,
        {
            let ghost before = out@;
            let j: usize = find_run_end(&entries, i);
            push_dec(&mut out, entries[i].0 as u64);
            push_str(&mut out, " ");
            push_dec(&mut out, (j - i + 1) as u64);
            if j + 1 < entries.len() {
                push_str(&mut out, " ");
            }
            assert(out@ + index_bytes(e, j + 1) =~= before + index_bytes(e, i as int));
            i = j + 1;
        }
        assert(index_bytes(e, i as int) =~= Seq::empty());
        assert(out@ =~= start + index_bytes(e, 0));
        push_str(&mut out, "]");
        push_id(&mut out, &id_array);
        push_str(&mut out, " /Filter /FlateDecode /Length ");
        push_dec(&mut out, compressed.len() as u64);
        push_str(&mut out, " >>\nstream\n");
        out.extend_from_slice(&compressed);
        push_str(&mut out, "\nendstream\nendobj\n");
        assert(out@ == head + stream_section(e, size, root, prev as nat, opt_obj(id_array))) by {
            broadcast use concat_assoc;
        }
        push_file_end(&mut out, xref_off);
        out
    }

    /// Render `original + appended update`. `size` is the new `/Size`,
    /// `root` the catalog id, `prev` the previous `startxref` offset. Emits a
    /// cross-reference **stream** when the original uses one, otherwise a
    /// traditional cross-reference **table** — matching the source's convention.
    pub fn render(&self, size: u32, root: ObjectId, prev: usize, id_array: Option<Object>) -> (r: Vec<u8>)
        requires
            startxref_sound(self.base()),
            xref_stream_used(self.base()) ==> size < u32::MAX,
        ensures
            r@ == updated(self.base(), self@, size, root, prev as nat, opt_obj(id_array)),
    {
        if uses_xref_stream(self.original) {
            self.render_xref_stream(size, root, prev, id_array)
        } else {
            self.render_xref_table(size, root, prev, id_array)
        }
    }
}

/// Puts `x` among the entries, behind those whose number is not larger.
fn insert_spot(entries: &mut Vec<(u32, u16, usize)>, x: (u32, u16, usize))
    ensures
        spots(final(entries)@) == insert_entry(spots(old(entries)@), (x.0, x.1, x.2 as nat)),
{
    let ghost e = spots(entries@);
    let ghost y: Entry = (x.0, x.1, x.2 as nat);
    let mut k: usize = entries.len();
    assert(e.take(k as int) =~= e);
    while k > 0 && entries[k - 1].0 > x.0
        invariant
            k <= entries.len(),
            e == spots(entries@),
            y == (x.0, x.1, x.2 as nat),
            insert_entry(e, y) =~= insert_entry(e.take(k as int), y) + e.skip(k as int),
        decreases k,
    {
        proof {
            let t = e.take(k as int);
            assert(t.drop_last() =~= e.take(k - 1));
            assert(t.last() == e[k - 1]);
            assert(insert_entry(t, y) == insert_entry(e.take(k - 1), y).push(e[k - 1]));
            assert(insert_entry(e.take(k - 1), y).push(e[k - 1]) + e.skip(k as int) =~= insert_entry(e.take(k - 1), y)
                + e.skip(k - 1));
        }
        k -= 1;
    }
    proof {
        if k > 0 {
            assert(e.take(k as int).last() == e[k - 1]);
        }
    }
    entries.insert(k, x);
    assert(spots(entries@) =~= insert_entry(e, y));
}

/// Writes the `/Root` and `/Prev` entries.
fn push_chain(out: &mut Vec<u8>, root: ObjectId, prev: usize)
    ensures
        final(out)@ == old(out)@ + chain_bytes(root, prev as nat),
{
    push_str(out, " /Root ");
    push_dec(out, root.0 as u64);
    push_str(out, " ");
    push_dec(out, root.1 as u64);
    push_str(out, " R /Prev ");
    push_dec(out, prev as u64);
    assert(out@ =~= old(out)@ + chain_bytes(root, prev as nat));
}

/// Writes the `/ID` entry.
fn push_id(out: &mut Vec<u8>, id: &Option<Object>)
    ensures
        final(out)@ == old(out)@ + id_bytes(opt_obj(*id)),
{
    if let Some(o) = id {
        push_str(out, " /ID ");
        write_object(out, o);
    }
    assert(out@ =~= old(out)@ + id_bytes(opt_obj(*id)));
}

/// Writes the end of the file.
fn push_file_end(out: &mut Vec<u8>, off: usize)
    ensures
        final(out)@ == old(out)@ + file_end(off as nat),
{
    push_str(out, "startxref\n");
    push_dec(out, off as u64);
    push_str(out, "\n%%EOF\n");
    assert(out@ =~= old(out)@ + file_end(off as nat));
}

// ---------------------------------------------------------------------------
// Laws

proof fn lemma_skip_digits_is(buf: Seq<u8>, i: int, e: int)
    requires
        0 <= i <= e <= buf.len(),
        forall|k: int| i <= k < e ==> is_digit(#[trigger] buf[k]),
        e < buf.len() ==> !is_digit(buf[e]),
    ensures
        skip_digits(buf, i) == e,
    decreases e - i,
{
    if i < e {
        assert(is_digit(buf[i]));
        lemma_skip_digits_is(buf, i + 1, e);
    }
}

/// The last `startxref` of a file with a proper end is the one in that end.
pub proof fn law_file_end(front: Seq<u8>, n: nat)
    ensures
        startxref(front + file_end(n)) == Some(n),
{
    let buf = front + file_end(n);
    let p = front.len() as int;
    let key = lit("startxref");
    let line = lit("startxref\n");
    let rest = lit("\n%%EOF\n");
    reveal_strlit("startxref");
    reveal_strlit("startxref\n");
    reveal_strlit("\n%%EOF\n");
    lemma_lit("startxref");
    lemma_lit("startxref\n");
    lemma_lit("\n%%EOF\n");
    lemma_dec(n);
    assert(file_end(n) == line + dec(n) + rest);
    assert(forall|k: int| 0 <= k < 10 ==> buf[p + k] == line[k]);
    assert(forall|k: int| 0 <= k < dec(n).len() ==> buf[p + 10 + k] == dec(n)[k]);
    assert(forall|k: int| 0 <= k < 7 ==> buf[p + 10 + dec(n).len() + k] == rest[k]);
    assert(buf.subrange(p, p + 9) =~= key);
    assert(occurs_at(buf, key, p));
    assert forall|j: int| p < j implies !occurs_at(buf, key, j) by {
        if occurs_at(buf, key, j) {
            assert(buf.subrange(j, j + 9)[0] == key[0]);
            assert(buf[j] == 0x73);
            if j < p + 10 {
                assert(buf[j] == line[j - p]);
            } else if j < p + 10 + dec(n).len() {
                assert(buf[p + 10 + (j - p - 10)] == dec(n)[j - p - 10]);
                assert(is_digit(dec(n)[j - p - 10]));
            } else {
                let k = j - p - 10 - dec(n).len();
                assert(buf[p + 10 + dec(n).len() + k] == rest[k]);
            }
        }
    }
    lemma_last_upto(buf, key, buf.len() - 9);
    assert(last_in(buf, key) == Some(p));
    let i = p + 10;
    let e = i + dec(n).len();
    assert(buf[p + 9] == line[9]);
    assert(buf[p + 10 + 0] == dec(n)[0]);
    assert(is_digit(dec(n)[0]));
    assert(skip_space(buf, p + 9) == i) by {
        reveal_with_fuel(skip_space, 2);
    }
    assert forall|k: int| i <= k < e implies is_digit(#[trigger] buf[k]) by {
        assert(buf[p + 10 + (k - i)] == dec(n)[k - i]);
        assert(is_digit(dec(n)[k - i]));
    }
    assert(buf[p + 10 + dec(n).len() + 0] == rest[0]);
    lemma_skip_digits_is(buf, i, e);
    assert(buf.subrange(i, e) =~= dec(n));
}

/// The part of an update in front of the end of the file.
pub open spec fn update_front(
    base: Seq<u8>,
    s: Seq<Item>,
    size: u32,
    root: ObjectId,
    prev: nat,
    id: Option<Obj>,
) -> Seq<u8> {
    with_objects(base, s) + (if xref_stream_used(base) {
        stream_section(stream_entries(base, s, size), size, root, prev, id)
    } else {
        table_section(entries_of(with_line_end(base).len(), s), size, root, prev, id)
    })
}

/// An update keeps the original bytes verbatim: the updated file begins with them.
pub proof fn law_update_keeps_original(
    base: Seq<u8>,
    s: Seq<Item>,
    size: u32,
    root: ObjectId,
    prev: nat,
    id: Option<Obj>,
)
    ensures
        base.len() < updated(base, s, size, root, prev, id).len(),
        updated(base, s, size, root, prev, id).take(base.len() as int) == base,
{
    let u = updated(base, s, size, root, prev, id);
    let w = with_line_end(base);
    assert(u == update_front(base, s, size, root, prev, id) + file_end(with_objects(base, s).len()));
    reveal_strlit("startxref\n");
    lemma_lit("startxref\n");
    assert(w.len() >= base.len());
    assert(w.take(base.len() as int) =~= base);
    assert(u.take(w.len() as int) =~= w);
    assert(u.take(base.len() as int) =~= u.take(w.len() as int).take(base.len() as int));
}

/// The last `startxref` of an updated file points at the cross-reference
/// section that the update appended.
pub proof fn law_update_startxref(
    base: Seq<u8>,
    s: Seq<Item>,
    size: u32,
    root: ObjectId,
    prev: nat,
    id: Option<Obj>,
)
    ensures
        startxref(updated(base, s, size, root, prev, id)) == Some(with_objects(base, s).len()),
        startxref_sound(updated(base, s, size, root, prev, id)),
{
    law_file_end(update_front(base, s, size, root, prev, id), with_objects(base, s).len());
}

/// An updated file has the kind of cross-reference section that the original
/// has, so that further updates go on with it.
pub proof fn law_update_keeps_kind(
    base: Seq<u8>,
    s: Seq<Item>,
    size: u32,
    root: ObjectId,
    prev: nat,
    id: Option<Obj>,
)
    ensures
        xref_stream_used(updated(base, s, size, root, prev, id)) == xref_stream_used(base),
{
    let u = updated(base, s, size, root, prev, id);
    let head = with_objects(base, s);
    let n = head.len() as int;
    law_update_startxref(base, s, size, root, prev, id);
    let key = lit("xref");
    reveal_strlit("xref");
    lemma_lit("xref");
    if xref_stream_used(base) {
        let sec = stream_section(stream_entries(base, s, size), size, root, prev, id);
        lemma_dec(size as nat);
        assert(sec[0] == dec(size as nat)[0]);
        assert(u[n] == sec[0]);
        assert(is_digit(u[n]));
        assert(skip_space(u, n) == n);
        if occurs_at(u, key, n) {
            assert(u.subrange(n, n + 4)[0] == key[0]);
        }
    } else {
        let sec = table_section(entries_of(with_line_end(base).len(), s), size, root, prev, id);
        reveal_strlit("xref\n");
        lemma_lit("xref\n");
        assert forall|k: int| 0 <= k < 5 implies #[trigger] u[n + k] == lit("xref\n")[k] by {
            assert(sec[k] == lit("xref\n")[k]);
        }
        assert(u[n + 0] == lit("xref\n")[0]);
        assert(skip_space(u, n) == n);
        assert(u.subrange(n, n + 4) =~= key);
    }
}

/// Each object of an update stands at the offset that its cross-reference
/// entry gives.
pub proof fn law_update_offsets(
    base: Seq<u8>,
    s: Seq<Item>,
    size: u32,
    root: ObjectId,
    prev: nat,
    id: Option<Obj>,
    k: int,
)
    requires
        0 <= k < s.len(),
    ensures
        occurs_at(
            updated(base, s, size, root, prev, id),
            item_bytes(s[k]),
            entries_of(with_line_end(base).len(), s)[k].2 as int,
        ),
{
    let w = with_line_end(base);
    let u = updated(base, s, size, root, prev, id);
    let off = w.len() + items_bytes(s.take(k)).len();
    lemma_items_at(s, k, s.len() as int);
    assert(s.take(s.len() as int) =~= s);
    let b = items_bytes(s);
    let m = items_bytes(s.take(k)).len() as int;
    let l = item_bytes(s[k]).len() as int;
    assert(with_objects(base, s).subrange(off as int, off + l) =~= b.subrange(m, m + l));
    assert(u.subrange(off as int, off + l) =~= with_objects(base, s).subrange(off as int, off + l));
}

proof fn lemma_items_at(s: Seq<Item>, k: int, n: int)
    requires
        0 <= k < n <= s.len(),
    ensures
        ({
            let m = items_bytes(s.take(k)).len() as int;
            let l = item_bytes(s[k]).len() as int;
            m + l <= items_bytes(s.take(n)).len() && items_bytes(s.take(n)).subrange(m, m + l) == item_bytes(s[k])
        }),
    decreases n - k,
{
    let m = items_bytes(s.take(k)).len() as int;
    let l = item_bytes(s[k]).len() as int;
    assert(s.take(n).drop_last() =~= s.take(n - 1));
    if n == k + 1 {
        assert(items_bytes(s.take(n)).subrange(m, m + l) =~= item_bytes(s[k]));
    } else {
        lemma_items_at(s, k, n - 1);
        assert(items_bytes(s.take(n)).subrange(m, m + l) =~= items_bytes(s.take(n - 1)).subrange(m, m + l));
    }
}

/// Every entry of a cross-reference table takes exactly twenty bytes, as long as
/// its offset has at most ten digits.
pub proof fn law_row_is_twenty_bytes(e: Entry)
    requires
        e.2 < pow10(10),
    ensures
        row_bytes(e).len() == 20,
{
    lemma_dec_len(e.2, 10);
    assert(pow10(5) == 100_000) by {
        reveal_with_fuel(pow10, 6);
    }
    lemma_dec_len(e.1 as nat, 5);
    reveal_strlit(" ");
    reveal_strlit(" n\r\n");
    lemma_lit(" ");
    lemma_lit(" n\r\n");
}

} // verus!
