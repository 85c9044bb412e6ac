//! Undoing the filters of streams.
use lopdf::Dictionary as PdfDictionary;
use lopdf::Object as PdfObject;
use vstd::prelude::*;

use crate::certificate::opt_bytes;
use crate::object::{lookup, objs, Dictionary, Obj, Object};
use crate::util::{blobs, bytes_eq, lit, raw, to_vec, utf8};

verus! {

/// How a stream is encoded: its filters in the order in which they are undone, and the
/// parameters for them.
#[derive(Debug)]
pub struct Coding {
    pub filters: Vec<Vec<u8>>,
    pub predictor: i64,
    pub columns: i64,
    pub colors: i64,
    pub bits: i64,
    pub early_change: i64,
}

/// How a stream is encoded as a mathematical value.
pub struct CodingView {
    pub filters: Seq<Seq<u8>>,
    pub predictor: i64,
    pub columns: i64,
    pub colors: i64,
    pub bits: i64,
    pub early_change: i64,
}

impl Coding {
    pub open spec fn view(&self) -> CodingView {
        CodingView {
            filters: blobs(self.filters@),
            predictor: self.predictor,
            columns: self.columns,
            colors: self.colors,
            bits: self.bits,
            early_change: self.early_change,
        }
    }
}

// ---------------------------------------------------------------------------
// What can be undone

/// The digits of the base-85 encoding of the largest number of 32 bits.
pub const MAX_GROUP: u64 = 0xffff_ffff;

/// Filling a group of the base-85 encoding up keeps it within 32 bits, or is refused.
pub open spec fn padding_fits(acc: int, count: int) -> bool
    decreases 5 - count,
{
    if count <= 0 || count >= 5 || acc * 85 > MAX_GROUP {
        true
    } else {
        acc * 85 + 84 <= MAX_GROUP && padding_fits(acc * 85 + 84, count + 1)
    }
}

/// The groups of base-85 encoded bytes from index `i` on, up to `end`, stay within 32 bits
/// or are refused; `acc` is the value of the `count` digits of the group so far.
pub open spec fn groups_fit(s: Seq<u8>, i: int, end: int, acc: int, count: int) -> bool
    decreases end - i,
{
    if i < 0 || i >= end || end > s.len() {
        padding_fits(acc, count)
    } else if s[i] == 0x7a {
        count != 0 || groups_fit(s, i + 1, end, acc, count)
    } else if s[i] == 0x20 || s[i] == 0x09 || s[i] == 0x0a || s[i] == 0x0c || s[i] == 0x0d {
        groups_fit(s, i + 1, end, acc, count)
    } else if s[i] < 0x21 || s[i] > 0x75 {
        padding_fits(acc, count)
    } else if acc * 85 > MAX_GROUP {
        true
    } else {
        acc * 85 + (s[i] - 0x21) <= MAX_GROUP && (if count >= 4 {
            groups_fit(s, i + 1, end, 0, 0)
        } else {
            groups_fit(s, i + 1, end, acc * 85 + (s[i] - 0x21), count + 1)
        })
    }
}

/// Base-85 encoded bytes can be decoded: their groups stay within 32 bits or are refused.
pub open spec fn ascii85_fits(s: Seq<u8>) -> bool {
    let n = s.len() as int;
    groups_fit(
        s,
        0,
        if n >= 2 && s[n - 2] == 0x7e && s[n - 1] == 0x3e {
            n - 2
        } else {
            n
        },
        0,
        0,
    )
}

fn pad_fits(acc: u64, count: u8) -> (r: bool)
    requires
        acc <= MAX_GROUP,
    ensures
        r == padding_fits(acc as int, count as int),
{
    let mut a: u64 = acc;
    let mut c: u8 = count;
    while c > 0 && c < 5
        invariant
            a <= MAX_GROUP,
            padding_fits(acc as int, count as int) == padding_fits(a as int, c as int),
        decreases 5 - c,
    {
        if a * 85 > MAX_GROUP {
            return true;
        }
        if a * 85 + 84 > MAX_GROUP {
            return false;
        }
        a = a * 85 + 84;
        c += 1;
    }
    true
}

fn has_fitting_groups(s: &[u8]) -> (r: bool)
    ensures
        r == ascii85_fits(s@),
{
    let n: usize = s.len();
    let end: usize = if n >= 2 && s[n - 2] == 0x7e && s[n - 1] == 0x3e { n - 2 } else { n };
    let mut i: usize = 0;
    let mut acc: u64 = 0;
    let mut count: u8 = 0;
    while i < end
        invariant
            i <= end <= s.len(),
            acc <= MAX_GROUP,
            count < 5,
            ascii85_fits(s@) == groups_fit(s@, i as int, end as int, acc as int, count as int),
        decreases end - i,
    {
        let b: u8 = s[i];
        i += 1;
        if b == 0x7a {
            if count != 0 {
                return true;
            }
        } else if b == 0x20 || b == 0x09 || b == 0x0a || b == 0x0c || b == 0x0d {
        } else if b < 0x21 || b > 0x75 {
            return pad_fits(acc, count);
        } else {
            if acc * 85 > MAX_GROUP {
                return true;
            }
            acc = acc * 85 + (b - 0x21) as u64;
            if acc > MAX_GROUP {
                return false;
            }
            if count >= 4 {
                acc = 0;
                count = 0;
            } else {
                count += 1;
            }
        }
    }
    pad_fits(acc, count)
}

/// How many bytes a row may have under a predictor.
pub const MAX_ROW: u128 = 0x4000_0000;

/// The parameter, at least as large as its least value.
pub open spec fn at_least(n: i64, least: int) -> int {
    if n < least {
        least
    } else {
        n as int
    }
}

/// The rows under a predictor have a length that a machine can hold.
pub open spec fn rows_fit(c: CodingView) -> bool {
    10 <= c.predictor <= 15 ==> at_least(c.colors, 1) * at_least(c.bits, 8) <= MAX_ROW && at_least(c.columns, 1)
        <= MAX_ROW && (at_least(c.colors, 1) * at_least(c.bits, 8) / 8) * at_least(c.columns, 1) <= MAX_ROW
}

fn has_fitting_rows(c: &Coding) -> (r: bool)
    ensures
        r == rows_fit(c@),
{
    if c.predictor < 10 || c.predictor > 15 {
        return true;
    }
    let colors: u128 = if c.colors < 1 { 1 } else { c.colors as u128 };
    let bits: u128 = if c.bits < 8 { 8 } else { c.bits as u128 };
    let columns: u128 = if c.columns < 1 { 1 } else { c.columns as u128 };
    assert(colors * bits <= 0x8000_0000_0000_0000 * 0x8000_0000_0000_0000) by (nonlinear_arith)
        requires
            colors <= 0x8000_0000_0000_0000,
            bits <= 0x8000_0000_0000_0000,
    ;
    let pixel: u128 = colors * bits;
    if pixel > MAX_ROW || columns > MAX_ROW {
        return false;
    }
    assert((pixel / 8) * columns <= MAX_ROW * MAX_ROW) by (nonlinear_arith)
        requires
            pixel / 8 <= MAX_ROW,
            columns <= MAX_ROW,
    ;
    (pixel / 8) * columns <= MAX_ROW
}

/// The content of a stream after its filters, where they can be undone.
pub uninterp spec fn decoded(coding: CodingView, content: Seq<u8>) -> Option<Seq<u8>>;

/// The encoding with the first `n` filters alone.
pub open spec fn first_filters(c: CodingView, n: int) -> CodingView {
    CodingView { filters: c.filters.take(n), ..c }
}

/// What the `k`-th filter is given, where the ones before it can be undone.
pub open spec fn filter_input(c: CodingView, content: Seq<u8>, k: int) -> Option<Seq<u8>> {
    if k <= 0 {
        Some(content)
    } else {
        decoded(first_filters(c, k), content)
    }
}

/// The `k`-th filter can be undone without overflow, or is refused.
pub open spec fn filter_fits(c: CodingView, content: Seq<u8>, k: int) -> bool {
    if c.filters[k] == lit("ASCII85Decode") {
        filter_input(c, content, k) matches Some(s) ==> ascii85_fits(s)
    } else {
        rows_fit(c)
    }
}

/// The filters of a stream can be undone without overflow, or are refused.
pub open spec fn decodable(c: CodingView, content: Seq<u8>) -> bool {
    forall|k: int| 0 <= k < c.filters.len() ==> #[trigger] filter_fits(c, content, k)
}

/// Undoes the filters of a stream: `lopdf::Stream::decompressed_content`. Neither the
/// groups of base 85 nor the lengths of rows may overflow.
#[verifier::external_body]
fn decode(c: &Coding, content: &[u8]) -> (r: Option<Vec<u8>>)
    requires
        decodable(c@, content@),
    ensures
        opt_bytes(r) == decoded(c@, content@),
{
    let names = c.filters.iter().map(|f| PdfObject::Name(f.clone())).collect();
    let numbers = [
        ("Predictor", c.predictor),
        ("Columns", c.columns),
        ("Colors", c.colors),
        ("BitsPerComponent", c.bits),
        ("EarlyChange", c.early_change),
    ];
    let parameters = PdfDictionary::from_iter(numbers.map(|(k, n)| (k, PdfObject::Integer(n))));
    let entries = [("Filter", PdfObject::Array(names)), ("DecodeParms", PdfObject::Dictionary(parameters))];
    lopdf::Stream::new(PdfDictionary::from_iter(entries), content.to_vec()).decompressed_content().ok()
}

proof fn lemma_prefix_decodable(c: CodingView, content: Seq<u8>, n: int)
    requires
        0 <= n <= c.filters.len(),
        forall|k: int| 0 <= k < n ==> #[trigger] filter_fits(c, content, k),
    ensures
        decodable(first_filters(c, n), content),
{
    let p = first_filters(c, n);
    assert forall|k: int| 0 <= k < p.filters.len() implies #[trigger] filter_fits(p, content, k) by {
        assert(filter_fits(c, content, k));
        assert(p.filters.take(k) =~= c.filters.take(k));
        assert(first_filters(p, k) == first_filters(c, k));
    }
}

fn copy_filters(v: &Vec<Vec<u8>>, n: usize) -> (r: Vec<Vec<u8>>)
    requires
        n <= v.len(),
    ensures
        blobs(r@) == blobs(v@).take(n as int),
{
    let mut out: Vec<Vec<u8>> = Vec::new();
    let mut i: usize = 0;
    while i < n
        invariant
            i <= n <= v.len(),
            out@.len() == i,
            forall|k: int| 0 <= k < i ==> (#[trigger] out@[k])@ == v@[k]@,
        decreases n - i,
    {
        out.push(to_vec(&v[i]));
        i += 1;
    }
    assert(blobs(out@) =~= blobs(v@).take(n as int));
    out
}

/// Whether the filters of a stream can be undone without overflow, or are refused.
pub fn is_decodable(c: &Coding, content: &[u8]) -> (r: bool)
    ensures
        r == decodable(c@, content@),
{
    let mut k: usize = 0;
    while k < c.filters.len()
        invariant
            k <= c.filters.len(),
            forall|j: int| 0 <= j < k ==> #[trigger] filter_fits(c@, content@, j),
        decreases c.filters.len() - k,
    {
        assert(c@.filters[k as int] == c.filters@[k as int]@);
        let fits: bool = if bytes_eq(&c.filters[k], raw("ASCII85Decode")) {
            if k == 0 {
                has_fitting_groups(content)
            } else {
                let before: Coding = Coding {
                    filters: copy_filters(&c.filters, k),
                    predictor: c.predictor,
                    columns: c.columns,
                    colors: c.colors,
                    bits: c.bits,
                    early_change: c.early_change,
                };
                assert(before@ == first_filters(c@, k as int));
                proof {
                    lemma_prefix_decodable(c@, content@, k as int);
                }
                match decode(&before, content) {
                    None => true,
                    Some(s) => has_fitting_groups(&s),
                }
            }
        } else {
            has_fitting_rows(c)
        };
        if !fits {
            assert(!filter_fits(c@, content@, k as int));
            return false;
        }
        k += 1;
    }
    true
}

/// The content of a stream after its filters, where they can be undone without overflow.
pub open spec fn undone(c: CodingView, content: Seq<u8>) -> Option<Seq<u8>> {
    if decodable(c, content) {
        decoded(c, content)
    } else {
        None
    }
}

/// Undoes the filters of a stream, where that is possible without overflow.
pub fn undo_filters(c: &Coding, content: &[u8]) -> (r: Option<Vec<u8>>)
    ensures
        opt_bytes(r) == undone(c@, content@),
{
    if is_decodable(c, content) {
        decode(c, content)
    } else {
        None
    }
}

// ---------------------------------------------------------------------------
// The encoding in a dictionary

/// The names in an array, where it holds nothing else, from index `i` on.
pub open spec fn names_in(a: Seq<Obj>) -> Option<Seq<Seq<u8>>>
    decreases a.len(),
{
    if a.len() == 0 {
        Some(Seq::empty())
    } else {
        match (names_in(a.drop_last()), a.last()) {
            (Some(v), Obj::Name(n)) => Some(v.push(n)),
            _ => None,
        }
    }
}

/// The filters of a stream: a name, or an array of names.
pub open spec fn filters_in(d: Seq<(Seq<u8>, Obj)>) -> Option<Seq<Seq<u8>>> {
    match lookup(d, utf8("Filter"@)) {
        Some(Obj::Name(n)) => Some(seq![n]),
        Some(Obj::Array(a)) => names_in(a),
        _ => None,
    }
}

/// The number under a key of the parameters, or the default.
pub open spec fn parameter(d: Seq<(Seq<u8>, Obj)>, key: Seq<char>, default: i64) -> i64 {
    match lookup(d, utf8("DecodeParms"@)) {
        Some(Obj::Dictionary(p)) => match lookup(p, utf8(key)) {
            Some(Obj::Integer(n)) => n,
            _ => default,
        },
        _ => default,
    }
}

/// How the stream with a dictionary is encoded, where its filters can be read.
pub open spec fn coding_of(d: Seq<(Seq<u8>, Obj)>) -> Option<CodingView> {
    match filters_in(d) {
        None => None,
        Some(filters) => Some(
            CodingView {
                filters,
                predictor: parameter(d, "Predictor"@, 1),
                columns: parameter(d, "Columns"@, 1),
                colors: parameter(d, "Colors"@, 1),
                bits: parameter(d, "BitsPerComponent"@, 8),
                early_change: parameter(d, "EarlyChange"@, 1),
            },
        ),
    }
}

fn read_names(a: &Vec<Object>) -> (r: Option<Vec<Vec<u8>>>)
    ensures
        match names_in(objs(a@)) {
            Some(v) => r is Some && blobs(r->0@) == v,
            None => r is None,
        },
{
    let mut out: Vec<Vec<u8>> = Vec::new();
    let mut i: usize = 0;
    assert(objs(a@).take(0) =~= Seq::empty());
    assert(blobs(out@) =~= Seq::empty());
    proof {
        crate::object::lemma_objs(a@);
    }
    while i < a.len()
        invariant
            i <= a.len(),
            objs(a@).len() == a@.len(),
            forall|k: int| 0 <= k < a@.len() ==> #[trigger] objs(a@)[k] == a@[k]@,
            names_in(objs(a@).take(i as int)) == Some(blobs(out@)),
        decreases a.len() - i,
    {
        let ghost all = objs(a@);
        let ghost before = blobs(out@);
        assert(all.take(i + 1).drop_last() =~= all.take(i as int));
        assert(all.take(i + 1).last() == a@[i as int]@);
        match &a[i] {
            Object::Name(n) => {
                let name: Vec<u8> = to_vec(n);
                let ghost view = name@;
                out.push(name);
                assert(blobs(out@) =~= before.push(view));
            },
            _ => {
                proof {
                    lemma_no_names(all, i + 1);
                }
                return None;
            },
        }
        i += 1;
    }
    assert(objs(a@).take(a@.len() as int) =~= objs(a@));
    Some(out)
}

proof fn lemma_no_names(a: Seq<Obj>, n: int)
    requires
        0 <= n <= a.len(),
        names_in(a.take(n)) is None,
    ensures
        names_in(a) is None,
    decreases a.len() - n,
{
    if n < a.len() {
        assert(a.take(n + 1).drop_last() =~= a.take(n));
        lemma_no_names(a, n + 1);
    } else {
        assert(a.take(n) =~= a);
    }
}

fn read_parameter(d: &Dictionary, key: &str, default: i64) -> (r: i64)
    ensures
        r == parameter(d@, key@, default),
{
    match d.get("DecodeParms") {
        Some(Object::Dictionary(p)) => match p.get(key) {
            Some(Object::Integer(n)) => *n,
            _ => default,
        },
        _ => default,
    }
}

/// How the stream with a dictionary is encoded, where its filters can be read.
pub fn read_coding(d: &Dictionary) -> (r: Option<Coding>)
    ensures
        match coding_of(d@) {
            Some(c) => r is Some && r->0@ == c,
            None => r is None,
        },
{
    let filters: Vec<Vec<u8>> = match d.get("Filter") {
        Some(Object::Name(n)) => {
            let name: Vec<u8> = to_vec(n);
            let ghost view = name@;
            let v: Vec<Vec<u8>> = vec![name];
            assert(blobs(v@) =~= seq![view]);
            v
        },
        Some(Object::Array(a)) => match read_names(a) {
            None => {
                return None;
            },
            Some(v) => v,
        },
        _ => {
            return None;
        },
    };
    Some(
        Coding {
            filters,
            predictor: read_parameter(d, "Predictor", 1),
            columns: read_parameter(d, "Columns", 1),
            colors: read_parameter(d, "Colors", 1),
            bits: read_parameter(d, "BitsPerComponent", 8),
            early_change: read_parameter(d, "EarlyChange", 1),
        },
    )
}

} // verus!
