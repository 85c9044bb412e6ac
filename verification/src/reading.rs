//! Whether a file can be parsed: its objects nest within bounds, the streams that are
//! undone on the way can be undone, and following the lengths of streams through
//! object streams comes to an end.
use vstd::prelude::*;

use crate::filters::{decodable, decoded, is_decodable, undo_filters, Coding, CodingView};
use crate::lexer::{
    addable, digits_end, digits_value, field_views, fields_at, fields_inside, find_value, has_mention, integer_at,
    integers_at, is_addable, is_shallow, line_begins, mentions, name_at, names_at, read_digits, read_fields,
    read_integer, read_integers, read_name, read_names, read_reference, reference_at, shallow, skip, skip_gaps,
    value_of, Field,
};
use crate::util::{bytes_eq, find_sub, first_from, lit, matches_at, occurs_at, raw, to_vec};

verus! {

// ---------------------------------------------------------------------------
// Streams

/// Where blanks end, from `i` on.
pub open spec fn blanks_end(s: Seq<u8>, i: int) -> int
    decreases s.len() - i,
{
    if 0 <= i < s.len() && (s[i] == 0x20 || s[i] == 0x09) {
        blanks_end(s, i + 1)
    } else {
        i
    }
}

/// Where the line that ends at `i` is left behind.
pub open spec fn behind_line(s: Seq<u8>, i: int) -> Option<int> {
    if i < 0 || i >= s.len() {
        None
    } else if s[i] == 0x0a {
        Some(i + 1)
    } else if s[i] == 0x0d {
        if i + 1 < s.len() && s[i + 1] == 0x0a {
            Some(i + 2)
        } else {
            Some(i + 1)
        }
    } else {
        None
    }
}

/// The stream at `p`: the entries of its dictionary, and where its content begins.
pub open spec fn stream_at(s: Seq<u8>, p: int) -> Option<(Seq<(int, int)>, int)> {
    match fields_at(s, p) {
        None => None,
        Some((f, e)) => {
            let q = skip(s, e, false);
            if !occurs_at(s, lit("stream"), q) {
                None
            } else {
                match behind_line(s, blanks_end(s, q + lit("stream").len())) {
                    None => None,
                    Some(start) => Some((f, start)),
                }
            }
        },
    }
}

fn read_stream(s: &[u8], p: usize) -> (r: Option<(Vec<Field>, usize)>)
    requires
        p <= s.len(),
    ensures
        match stream_at(s@, p as int) {
            Some((f, start)) => r matches Some((v, x)) && field_views(v@) == f && x == start && x <= s.len()
                && fields_inside(f, s@.len() as int),
            None => r is None,
        },
{
    let (f, e): (Vec<Field>, usize) = match read_fields(s, p) {
        None => {
            return None;
        },
        Some(x) => x,
    };
    let q: usize = skip_gaps(s, e);
    if !matches_at(s, raw("stream"), q) {
        return None;
    }
    let first: usize = q + raw("stream").len();
    let mut i: usize = first;
    while i < s.len() && (s[i] == 0x20 || s[i] == 0x09)
        invariant
            first <= i <= s.len(),
            blanks_end(s@, first as int) == blanks_end(s@, i as int),
        decreases s.len() - i,
    {
        i += 1;
    }
    if i >= s.len() {
        None
    } else if s[i] == 0x0a {
        Some((f, i + 1))
    } else if s[i] == 0x0d {
        if s.len() - i > 1 && s[i + 1] == 0x0a {
            Some((f, i + 2))
        } else {
            Some((f, i + 1))
        }
    } else {
        None
    }
}

/// The `n` bytes of content from `start` on, where there are as many.
pub open spec fn content_at(s: Seq<u8>, start: int, n: i64) -> Option<Seq<u8>> {
    if n < 0 || start + n > s.len() {
        None
    } else {
        Some(s.subrange(start, start + n))
    }
}

fn read_content(s: &[u8], start: usize, n: i64) -> (r: Option<&[u8]>)
    requires
        start <= s.len(),
    ensures
        match content_at(s@, start as int, n) {
            Some(c) => r is Some && r->0@ == c,
            None => r is None,
        },
{
    if n < 0 || n as u64 > (s.len() - start) as u64 {
        None
    } else {
        Some(&s[start..start + n as usize])
    }
}

/// The integer under a key, where there is one.
pub open spec fn integer_under(s: Seq<u8>, f: Seq<(int, int)>, key: &str) -> Option<i64> {
    match value_of(s, f, lit(key)) {
        None => None,
        Some(v) => match integer_at(s, v) {
            None => None,
            Some((n, _)) => Some(n),
        },
    }
}

fn read_integer_under(s: &[u8], f: &Vec<Field>, key: &str) -> (r: Option<i64>)
    requires
        fields_inside(field_views(f@), s@.len() as int),
    ensures
        r == integer_under(s@, field_views(f@), key),
{
    match find_value(s, f, key) {
        None => None,
        Some(v) => match read_integer(s, v) {
            None => None,
            Some((n, _)) => Some(n),
        },
    }
}

/// The content of a stream whose dictionary gives its length.
pub open spec fn direct_content(s: Seq<u8>, f: Seq<(int, int)>, start: int) -> Option<Seq<u8>> {
    match integer_under(s, f, "Length") {
        None => None,
        Some(n) => content_at(s, start, n),
    }
}

fn read_direct_content<'a>(s: &'a [u8], f: &Vec<Field>, start: usize) -> (r: Option<&'a [u8]>)
    requires
        start <= s.len(),
        fields_inside(field_views(f@), s@.len() as int),
    ensures
        match direct_content(s@, field_views(f@), start as int) {
            Some(c) => r is Some && r->0@ == c,
            None => r is None,
        },
{
    match read_integer_under(s, f, "Length") {
        None => None,
        Some(n) => read_content(s, start, n),
    }
}

/// The number under a key of a stream's parameters, or the default.
pub open spec fn raw_parameter(s: Seq<u8>, f: Seq<(int, int)>, key: &str, default: i64) -> i64 {
    match value_of(s, f, lit("DecodeParms")) {
        None => default,
        Some(v) => match fields_at(s, v) {
            None => default,
            Some((g, _)) => match integer_under(s, g, key) {
                None => default,
                Some(n) => n,
            },
        },
    }
}

fn read_raw_parameter(s: &[u8], f: &Vec<Field>, key: &str, default: i64) -> (r: i64)
    requires
        fields_inside(field_views(f@), s@.len() as int),
    ensures
        r == raw_parameter(s@, field_views(f@), key, default),
{
    match find_value(s, f, "DecodeParms") {
        None => default,
        Some(v) => match read_fields(s, v) {
            None => default,
            Some((g, _)) => match read_integer_under(s, &g, key) {
                None => default,
                Some(n) => n,
            },
        },
    }
}

/// How a stream is encoded, where its filters can be read.
pub open spec fn raw_coding(s: Seq<u8>, f: Seq<(int, int)>) -> Option<CodingView> {
    match value_of(s, f, lit("Filter")) {
        None => None,
        Some(v) => match names_at(s, v) {
            None => None,
            Some(filters) => Some(
                CodingView {
                    filters,
                    predictor: raw_parameter(s, f, "Predictor", 1),
                    columns: raw_parameter(s, f, "Columns", 1),
                    colors: raw_parameter(s, f, "Colors", 1),
                    bits: raw_parameter(s, f, "BitsPerComponent", 8),
                    early_change: raw_parameter(s, f, "EarlyChange", 1),
                },
            ),
        },
    }
}

fn read_raw_coding(s: &[u8], f: &Vec<Field>) -> (r: Option<Coding>)
    requires
        fields_inside(field_views(f@), s@.len() as int),
    ensures
        match raw_coding(s@, field_views(f@)) {
            Some(c) => r is Some && r->0@ == c,
            None => r is None,
        },
{
    match find_value(s, f, "Filter") {
        None => None,
        Some(v) => match read_names(s, v) {
            None => None,
            Some(filters) => Some(
                Coding {
                    filters,
                    predictor: read_raw_parameter(s, f, "Predictor", 1),
                    columns: read_raw_parameter(s, f, "Columns", 1),
                    colors: read_raw_parameter(s, f, "Colors", 1),
                    bits: read_raw_parameter(s, f, "BitsPerComponent", 8),
                    early_change: read_raw_parameter(s, f, "EarlyChange", 1),
                },
            ),
        },
    }
}

/// The filters of a stream can be undone on its content, where they can be read.
pub open spec fn content_fits(s: Seq<u8>, f: Seq<(int, int)>, content: Seq<u8>) -> bool {
    raw_coding(s, f) matches Some(c) ==> decodable(c, content)
}

/// The content of a stream after its filters, or as it stands where they cannot be undone.
pub open spec fn plain_content(s: Seq<u8>, f: Seq<(int, int)>, content: Seq<u8>) -> Seq<u8> {
    match raw_coding(s, f) {
        None => content,
        Some(c) => match decoded(c, content) {
            None => content,
            Some(v) => v,
        },
    }
}

/// The content of a stream after its filters, where they can be undone on it.
fn read_plain_content(s: &[u8], f: &Vec<Field>, content: &[u8]) -> (r: Option<Vec<u8>>)
    requires
        fields_inside(field_views(f@), s@.len() as int),
    ensures
        match r {
            Some(v) => content_fits(s@, field_views(f@), content@) && v@ == plain_content(
                s@,
                field_views(f@),
                content@,
            ),
            None => !content_fits(s@, field_views(f@), content@),
        },
{
    match read_raw_coding(s, f) {
        None => Some(to_vec(content)),
        Some(c) => {
            if !is_decodable(&c, content) {
                return None;
            }
            match undo_filters(&c, content) {
                None => Some(to_vec(content)),
                Some(v) => Some(v),
            }
        },
    }
}

// ---------------------------------------------------------------------------
// Cross-reference streams

/// An entry of a cross-reference table: where an object stands, or the number of an object
/// and that of the object stream it is in.
#[derive(Debug, Clone, Copy, PartialEq, Eq, Structural)]
pub enum Entry {
    Normal(u32),
    Compressed(u32, u32),
}

/// How wide a field of a cross-reference stream may be.
pub const MAX_WIDTH: i64 = 4096;

/// The widths of the fields of a cross-reference stream, where a stream can be one.
pub open spec fn widths_of(s: Seq<u8>, f: Seq<(int, int)>) -> Option<(i64, i64, i64)> {
    match (value_of(s, f, lit("W")), integer_under(s, f, "Size")) {
        (Some(v), Some(_)) => match integers_at(s, v) {
            None => None,
            Some(w) => if w.len() < 3 || w[0] < 0 || w[1] < 0 || w[2] < 0 {
                None
            } else {
                Some((w[0], w[1], w[2]))
            },
        },
        _ => None,
    }
}

fn read_widths(s: &[u8], f: &Vec<Field>) -> (r: Option<(i64, i64, i64)>)
    requires
        fields_inside(field_views(f@), s@.len() as int),
    ensures
        r == widths_of(s@, field_views(f@)),
{
    match (find_value(s, f, "W"), read_integer_under(s, f, "Size")) {
        (Some(v), Some(_)) => match read_integers(s, v) {
            None => None,
            Some(w) => {
                if w.len() < 3 || w[0] < 0 || w[1] < 0 || w[2] < 0 {
                    None
                } else {
                    Some((w[0], w[1], w[2]))
                }
            },
        },
        _ => None,
    }
}

/// The fields have widths that can be held, and an entry takes some of the content.
pub open spec fn widths_fit(w: (i64, i64, i64)) -> bool {
    w.0 <= MAX_WIDTH && w.1 <= MAX_WIDTH && w.2 <= MAX_WIDTH && w.0 + w.1 + w.2 > 0
}

/// The sections of a cross-reference stream: first numbers and counts.
pub open spec fn sections_of(s: Seq<u8>, f: Seq<(int, int)>) -> Seq<i64> {
    let whole = seq![0i64, integer_under(s, f, "Size")->0];
    match value_of(s, f, lit("Index")) {
        None => whole,
        Some(v) => match integers_at(s, v) {
            None => whole,
            Some(ix) => ix,
        },
    }
}

fn read_sections(s: &[u8], f: &Vec<Field>, size: i64) -> (r: Vec<i64>)
    requires
        fields_inside(field_views(f@), s@.len() as int),
        integer_under(s@, field_views(f@), "Size") == Some(size),
    ensures
        r@ == sections_of(s@, field_views(f@)),
{
    if let Some(v) = find_value(s, f, "Index") {
        if let Some(ix) = read_integers(s, v) {
            return ix;
        }
    }
    let whole: Vec<i64> = vec![0, size];
    assert(whole@ =~= seq![0i64, size]);
    whole
}

/// The largest first number of a section that counts can be added to.
pub const MAX_FIRST: i64 = 0x3fff_ffff_ffff_ffff;

/// The numbers of sections can be added to.
pub open spec fn sections_fit(ix: Seq<i64>) -> bool {
    forall|k: int| 0 <= k < ix.len() ==> #[trigger] ix[k] <= MAX_FIRST
}

fn check_sections(ix: &Vec<i64>) -> (r: bool)
    ensures
        r == sections_fit(ix@),
{
    let mut k: usize = 0;
    while k < ix.len()
        invariant
            k <= ix.len(),
            forall|i: int| 0 <= i < k ==> #[trigger] ix@[i] <= MAX_FIRST,
        decreases ix.len() - k,
    {
        if ix[k] > MAX_FIRST {
            return false;
        }
        k += 1;
    }
    true
}

/// The number in the `w` bytes from `pos` on, its lowest 32 bits, behind the bytes with the
/// value `acc`.
pub open spec fn field_from(c: Seq<u8>, pos: int, w: int, acc: int) -> int
    decreases w,
{
    if w <= 0 || pos < 0 || pos >= c.len() {
        acc
    } else {
        field_from(c, pos + 1, w - 1, (acc * 256 + c[pos]) % 0x1_0000_0000)
    }
}

fn read_field(c: &[u8], pos: usize, w: usize) -> (r: u32)
    requires
        pos + w <= c.len(),
    ensures
        r == field_from(c@, pos as int, w as int, 0),
{
    let mut acc: u64 = 0;
    let mut i: usize = 0;
    while i < w
        invariant
            i <= w,
            pos + w <= c.len(),
            acc < 0x1_0000_0000,
            field_from(c@, pos as int, w as int, 0) == field_from(c@, pos + i, w - i, acc as int),
        decreases w - i,
    {
        acc = (acc * 256 + c[pos + i] as u64) % 0x1_0000_0000;
        i += 1;
    }
    acc as u32
}

/// The entries of a cross-reference stream behind those that were read: from entry `j` of
/// section `k` on, whose fields begin at `pos`.
pub open spec fn entries_from(
    c: Seq<u8>,
    w: (i64, i64, i64),
    ix: Seq<i64>,
    k: int,
    j: int,
    pos: int,
    acc: Seq<Entry>,
) -> Seq<Entry>
    decreases c.len() - pos, ix.len() - 2 * k,
{
    if k < 0 || 2 * k + 1 >= ix.len() {
        acc
    } else if j >= ix[2 * k + 1] {
        entries_from(c, w, ix, k + 1, 0, pos, acc)
    } else if pos < 0 || pos + w.0 > c.len() {
        acc
    } else {
        let t = if w.0 == 0 {
            1
        } else {
            field_from(c, pos, w.0 as int, 0)
        };
        let p = pos + w.0;
        let q = if t <= 2 {
            p + w.1 + w.2
        } else {
            p
        };
        if q > c.len() || q <= pos {
            acc
        } else {
            let v = field_from(c, p, w.1 as int, 0) as u32;
            let n = ((ix[2 * k] + j) % 0x1_0000_0000) as u32;
            entries_from(
                c,
                w,
                ix,
                k,
                j + 1,
                q,
                if t == 1 {
                    acc.push(Entry::Normal(v))
                } else if t == 2 {
                    acc.push(Entry::Compressed(n, v))
                } else {
                    acc
                },
            )
        }
    }
}

fn read_entries(c: &[u8], w: (i64, i64, i64), ix: &Vec<i64>) -> (r: Vec<Entry>)
    requires
        widths_fit(w),
        0 <= w.0,
        0 <= w.1,
        0 <= w.2,
    ensures
        r@ == entries_from(c@, w, ix@, 0, 0, 0, Seq::empty()),
{
    let (w0, w1, w2): (usize, usize, usize) = (w.0 as usize, w.1 as usize, w.2 as usize);
    let mut out: Vec<Entry> = Vec::new();
    let mut k: usize = 0;
    let mut j: i64 = 0;
    let mut pos: usize = 0;
    assert(out@ =~= Seq::empty());
    while k < ix.len() / 2
        invariant
            widths_fit(w),
            w0 == w.0 && w1 == w.1 && w2 == w.2,
            k <= ix.len() / 2,
            0 <= j,
            pos <= c.len(),
            entries_from(c@, w, ix@, 0, 0, 0, Seq::empty()) == entries_from(
                c@,
                w,
                ix@,
                k as int,
                j as int,
                pos as int,
                out@,
            ),
        decreases c.len() - pos, ix.len() / 2 - k,
    {
        assert(2 * k + 1 < ix.len());
        let count: i64 = ix[2 * k + 1];
        if j >= count {
            k += 1;
            j = 0;
            continue;
        }
        if c.len() - pos < w0 {
            return out;
        }
        let t: u32 = if w0 == 0 { 1 } else { read_field(c, pos, w0) };
        let p: usize = pos + w0;
        if t <= 2 {
            if c.len() - p < w1 || c.len() - p - w1 < w2 {
                return out;
            }
            let v: u32 = read_field(c, p, w1);
            let sum: i128 = ix[2 * k] as i128 + j as i128 + 0x1_0000_0000_0000_0000;
            let n: u32 = ((sum as u128) % 0x1_0000_0000) as u32;
            proof {
                lemma_low_bits(ix@[2 * k] + j);
            }
            if t == 1 {
                out.push(Entry::Normal(v));
            } else if t == 2 {
                out.push(Entry::Compressed(n, v));
            }
            if w0 + w1 + w2 == 0 {
                return out;
            }
            pos = p + w1 + w2;
        } else {
            pos = p;
        }
        j += 1;
    }
    out
}

/// Adding a multiple of the modulus keeps the low bits.
proof fn lemma_low_bits(x: int)
    ensures
        (x + 0x1_0000_0000_0000_0000) % 0x1_0000_0000 == x % 0x1_0000_0000,
{
    vstd::arithmetic::div_mod::lemma_mod_multiples_vanish(0x1_0000_0000, x, 0x1_0000_0000);
}

/// What can be a cross-reference stream at `p` can be read.
pub open spec fn table_fits(s: Seq<u8>, p: int) -> bool {
    match stream_at(s, p) {
        None => true,
        Some((f, start)) => match widths_of(s, f) {
            None => true,
            Some(w) => widths_fit(w) && sections_fit(sections_of(s, f)) && (direct_content(s, f, start) matches Some(c)
                ==> content_fits(s, f, c)),
        },
    }
}

/// The entries of what can be a cross-reference stream at `p`.
pub open spec fn table_at(s: Seq<u8>, p: int) -> Seq<Entry> {
    match stream_at(s, p) {
        None => Seq::empty(),
        Some((f, start)) => match (widths_of(s, f), direct_content(s, f, start)) {
            (Some(w), Some(c)) => entries_from(
                plain_content(s, f, c),
                w,
                sections_of(s, f),
                0,
                0,
                0,
                Seq::empty(),
            ),
            _ => Seq::empty(),
        },
    }
}

/// The entries of what can be a cross-reference stream at `p`, where it can be read.
fn read_table(s: &[u8], p: usize) -> (r: Option<Vec<Entry>>)
    requires
        p <= s.len(),
    ensures
        match r {
            Some(v) => table_fits(s@, p as int) && v@ == table_at(s@, p as int),
            None => !table_fits(s@, p as int),
        },
{
    let none: Vec<Entry> = Vec::new();
    assert(none@ =~= Seq::empty());
    let (f, start): (Vec<Field>, usize) = match read_stream(s, p) {
        None => {
            return Some(none);
        },
        Some(x) => x,
    };
    let w: (i64, i64, i64) = match read_widths(s, &f) {
        None => {
            return Some(none);
        },
        Some(w) => w,
    };
    if w.0 > MAX_WIDTH || w.1 > MAX_WIDTH || w.2 > MAX_WIDTH || w.0 + w.1 + w.2 <= 0 {
        return None;
    }
    let size: i64 = match read_integer_under(s, &f, "Size") {
        None => {
            return Some(none);
        },
        Some(n) => n,
    };
    let ix: Vec<i64> = read_sections(s, &f, size);
    if !check_sections(&ix) {
        return None;
    }
    match read_direct_content(s, &f, start) {
        None => Some(none),
        Some(c) => match read_plain_content(s, &f, c) {
            None => None,
            Some(v) => Some(read_entries(&v, w, &ix)),
        },
    }
}

// ---------------------------------------------------------------------------
// All entries

/// The entry of a cross-reference table at `i`, at the beginning of a line: where the
/// object stands.
pub open spec fn row_at(s: Seq<u8>, i: int) -> Option<u32> {
    let e = digits_end(s, i);
    let f = digits_end(s, e + 1);
    if line_begins(s, i) && e > i && e < s.len() && s[e] == 0x20
        && f > e + 1 && f + 1 < s.len() && s[f] == 0x20 && s[f + 1] == 0x6e && digits_value(s, i, 0) <= u32::MAX {
        Some(digits_value(s, i, 0) as u32)
    } else {
        None
    }
}

fn read_row(s: &[u8], i: usize) -> (r: Option<u32>)
    requires
        i <= s.len(),
    ensures
        r == row_at(s@, i as int),
{
    if i > 0 && s[i - 1] != 0x0a && s[i - 1] != 0x0d {
        return None;
    }
    let (v, e): (u128, usize) = read_digits(s, i);
    if e <= i || e >= s.len() || s[e] != 0x20 || v > u32::MAX as u128 {
        return None;
    }
    let (_, f): (u128, usize) = read_digits(s, e + 1);
    if f > e + 1 && s.len() - f > 1 && s[f] == 0x20 && s[f + 1] == 0x6e {
        Some(v as u32)
    } else {
        None
    }
}

/// The entries of all cross-reference tables and streams that begin in the first `n`
/// bytes.
pub open spec fn entries_upto(s: Seq<u8>, n: int) -> Seq<Entry>
    decreases n,
{
    if n <= 0 {
        Seq::empty()
    } else {
        let all = entries_upto(s, n - 1) + table_at(s, n - 1);
        match row_at(s, n - 1) {
            Some(v) => all.push(Entry::Normal(v)),
            None => all,
        }
    }
}

fn collect_entries(s: &[u8]) -> (r: Option<Vec<Entry>>)
    ensures
        match r {
            Some(v) => (forall|p: int| 0 <= p < s@.len() ==> #[trigger] table_fits(s@, p)) && v@ == entries_upto(
                s@,
                s@.len() as int,
            ),
            None => !(forall|p: int| 0 <= p < s@.len() ==> #[trigger] table_fits(s@, p)),
        },
{
    let mut out: Vec<Entry> = Vec::new();
    let mut i: usize = 0;
    assert(out@ =~= Seq::empty());
    while i < s.len()
        invariant
            i <= s.len(),
            forall|p: int| 0 <= p < i ==> #[trigger] table_fits(s@, p),
            out@ == entries_upto(s@, i as int),
        decreases s.len() - i,
    {
        let ghost before = out@;
        match read_table(s, i) {
            None => {
                assert(!table_fits(s@, i as int));
                return None;
            },
            Some(v) => {
                let mut v: Vec<Entry> = v;
                let ghost more = v@;
                out.append(&mut v);
                assert(out@ =~= before + more);
            },
        }
        if let Some(v) = read_row(s, i) {
            out.push(Entry::Normal(v));
        }
        i += 1;
    }
    Some(out)
}

// ---------------------------------------------------------------------------
// Objects

/// The indirect object at `i`: its number, and where its value begins.
pub open spec fn object_head(s: Seq<u8>, i: int) -> Option<(u32, int)> {
    let j = skip(s, i, false);
    let e = digits_end(s, j);
    let p = skip(s, e, false);
    let f = digits_end(s, p);
    let q = skip(s, f, false);
    if e > j && f > p && occurs_at(s, lit("obj"), q) && digits_value(s, j, 0) <= u32::MAX && digits_value(s, p, 0)
        <= u16::MAX {
        Some((digits_value(s, j, 0) as u32, skip(s, q + lit("obj").len(), false)))
    } else {
        None
    }
}

fn read_head(s: &[u8], i: usize) -> (r: Option<(u32, usize)>)
    requires
        i <= s.len(),
    ensures
        match object_head(s@, i as int) {
            Some((n, b)) => r matches Some((x, y)) && x == n && y == b && y <= s.len(),
            None => r is None,
        },
{
    let j: usize = skip_gaps(s, i);
    let (v, e): (u128, usize) = read_digits(s, j);
    let p: usize = skip_gaps(s, e);
    let (g, f): (u128, usize) = read_digits(s, p);
    let q: usize = skip_gaps(s, f);
    if e > j && f > p && matches_at(s, raw("obj"), q) && v <= u32::MAX as u128 && g <= u16::MAX as u128 {
        Some((v as u32, skip_gaps(s, q + raw("obj").len())))
    } else {
        None
    }
}

/// The object at an offset of an entry, if it lies in the file.
pub open spec fn object_for(s: Seq<u8>, offset: u32) -> Option<(u32, int)> {
    if offset > s.len() {
        None
    } else {
        object_head(s, offset as int)
    }
}

fn read_object_for(s: &[u8], offset: u32) -> (r: Option<(u32, usize)>)
    ensures
        match object_for(s@, offset) {
            Some((n, b)) => r matches Some((x, y)) && x == n && y == b && y <= s.len(),
            None => r is None,
        },
{
    if offset as u64 > s.len() as u64 {
        None
    } else {
        read_head(s, offset as usize)
    }
}

/// The stream at an offset of an entry: its number, the entries of its dictionary and
/// where its content begins.
pub open spec fn stream_for(s: Seq<u8>, offset: u32) -> Option<(u32, Seq<(int, int)>, int)> {
    match object_for(s, offset) {
        None => None,
        Some((n, b)) => match stream_at(s, b) {
            None => None,
            Some((f, start)) => Some((n, f, start)),
        },
    }
}

fn read_stream_for(s: &[u8], offset: u32) -> (r: Option<(u32, Vec<Field>, usize)>)
    ensures
        match stream_for(s@, offset) {
            Some((n, f, start)) => r matches Some((x, v, y)) && x == n && field_views(v@) == f && y == start && y
                <= s.len() && fields_inside(f, s@.len() as int),
            None => r is None,
        },
{
    match read_object_for(s, offset) {
        None => None,
        Some((n, b)) => match read_stream(s, b) {
            None => None,
            Some((f, start)) => Some((n, f, start)),
        },
    }
}

/// The object that the length of a stream is in, where it is not in the dictionary.
pub open spec fn length_reference(s: Seq<u8>, f: Seq<(int, int)>) -> Option<u32> {
    match value_of(s, f, lit("Length")) {
        None => None,
        Some(v) => reference_at(s, v),
    }
}

fn read_length_reference(s: &[u8], f: &Vec<Field>) -> (r: Option<u32>)
    requires
        fields_inside(field_views(f@), s@.len() as int),
    ensures
        r == length_reference(s@, field_views(f@)),
{
    match find_value(s, f, "Length") {
        None => None,
        Some(v) => read_reference(s, v),
    }
}

// ---------------------------------------------------------------------------
// Object streams

/// The content of an object stream can be undone, and the objects in it do not nest too
/// deeply.
pub open spec fn unpacked_fits(s: Seq<u8>, f: Seq<(int, int)>, content: Seq<u8>) -> bool {
    content_fits(s, f, content) && shallow(plain_content(s, f, content))
}

fn check_unpacked(s: &[u8], f: &Vec<Field>, content: &[u8]) -> (r: bool)
    requires
        fields_inside(field_views(f@), s@.len() as int),
    ensures
        r == unpacked_fits(s@, field_views(f@), content@),
{
    match read_plain_content(s, f, content) {
        None => false,
        Some(v) => is_shallow(&v),
    }
}

/// The object stream fits with every length that an entry can give it: the number `m` is
/// not that of a compressed object, and the content of the length in the object with the
/// number fits.
pub open spec fn length_fits(s: Seq<u8>, e: Entry, m: u32, f: Seq<(int, int)>, start: int) -> bool {
    match e {
        Entry::Compressed(n, _) => n != m,
        Entry::Normal(offset) => match object_for(s, offset) {
            None => true,
            Some((n, b)) => n == m ==> (match integer_at(s, b) {
                None => true,
                Some((len, _)) => content_at(s, start, len) matches Some(c) ==> unpacked_fits(s, f, c),
            }),
        },
    }
}

fn check_length(s: &[u8], e: Entry, m: u32, f: &Vec<Field>, start: usize) -> (r: bool)
    requires
        start <= s.len(),
        fields_inside(field_views(f@), s@.len() as int),
    ensures
        r == length_fits(s@, e, m, field_views(f@), start as int),
{
    match e {
        Entry::Compressed(n, _) => n != m,
        Entry::Normal(offset) => match read_object_for(s, offset) {
            None => true,
            Some((n, b)) => {
                if n != m {
                    return true;
                }
                match read_integer(s, b) {
                    None => true,
                    Some((len, _)) => match read_content(s, start, len) {
                        None => true,
                        Some(c) => check_unpacked(s, f, c),
                    },
                }
            },
        },
    }
}

/// The object stream can be unpacked, whatever its length turns out to be.
pub open spec fn object_stream_fits(s: Seq<u8>, entries: Seq<Entry>, f: Seq<(int, int)>, start: int) -> bool {
    match length_reference(s, f) {
        None => direct_content(s, f, start) matches Some(c) ==> unpacked_fits(s, f, c),
        Some(m) => forall|k: int| 0 <= k < entries.len() ==> length_fits(s, #[trigger] entries[k], m, f, start),
    }
}

fn check_object_stream(s: &[u8], entries: &Vec<Entry>, f: &Vec<Field>, start: usize) -> (r: bool)
    requires
        start <= s.len(),
        fields_inside(field_views(f@), s@.len() as int),
    ensures
        r == object_stream_fits(s@, entries@, field_views(f@), start as int),
{
    match read_length_reference(s, f) {
        None => match read_direct_content(s, f, start) {
            None => true,
            Some(c) => check_unpacked(s, f, c),
        },
        Some(m) => {
            let mut k: usize = 0;
            while k < entries.len()
                invariant
                    k <= entries.len(),
                    start <= s.len(),
                    fields_inside(field_views(f@), s@.len() as int),
                    length_reference(s@, field_views(f@)) == Some(m),
                    forall|i: int|
                        0 <= i < k ==> length_fits(s@, #[trigger] entries@[i], m, field_views(f@), start as int),
                decreases entries.len() - k,
            {
                if !check_length(s, entries[k], m, f, start) {
                    assert(!length_fits(s@, entries@[k as int], m, field_views(f@), start as int));
                    return false;
                }
                k += 1;
            }
            true
        },
    }
}

/// A number is that of an object stream that entries point into.
pub open spec fn is_container(entries: Seq<Entry>, n: u32) -> bool {
    exists|k: int| 0 <= k < entries.len() && (#[trigger] entries[k] matches Entry::Compressed(_, c) && c == n)
}

fn check_container(entries: &Vec<Entry>, n: u32) -> (r: bool)
    ensures
        r == is_container(entries@, n),
{
    let mut k: usize = 0;
    while k < entries.len()
        invariant
            k <= entries.len(),
            forall|i: int|
                0 <= i < k ==> !(#[trigger] entries@[i] matches Entry::Compressed(_, c) && c == n),
        decreases entries.len() - k,
    {
        if let Entry::Compressed(_, c) = entries[k] {
            if c == n {
                assert(entries@[k as int] matches Entry::Compressed(_, c) && c == n);
                return true;
            }
        }
        k += 1;
    }
    false
}

/// A stream is an object stream by its type.
pub open spec fn is_object_stream(s: Seq<u8>, f: Seq<(int, int)>) -> bool {
    match value_of(s, f, lit("Type")) {
        None => false,
        Some(v) => 0 <= v < s.len() && s[v] == 0x2f && name_at(s, v + 1) == lit("ObjStm"),
    }
}

/// What stands at an entry's offset can be unpacked, where it is an object stream.
pub open spec fn entry_fits(s: Seq<u8>, entries: Seq<Entry>, e: Entry) -> bool {
    match e {
        Entry::Compressed(_, _) => true,
        Entry::Normal(offset) => match stream_for(s, offset) {
            None => true,
            Some((n, f, start)) => is_object_stream(s, f) || is_container(entries, n) ==> object_stream_fits(
                s,
                entries,
                f,
                start,
            ),
        },
    }
}

fn check_entry(s: &[u8], entries: &Vec<Entry>, e: Entry) -> (r: bool)
    ensures
        r == entry_fits(s@, entries@, e),
{
    match e {
        Entry::Compressed(_, _) => true,
        Entry::Normal(offset) => match read_stream_for(s, offset) {
            None => true,
            Some((n, f, start)) => {
                let marked: bool = match find_value(s, &f, "Type") {
                    None => false,
                    Some(v) => s[v] == 0x2f && bytes_eq(&read_name(s, v + 1), raw("ObjStm")),
                };
                if marked || check_container(entries, n) {
                    check_object_stream(s, entries, &f, start)
                } else {
                    true
                }
            },
        },
    }
}

// ---------------------------------------------------------------------------
// Paths

/// What reading an object leads on to: from a stream to the object with its length, and
/// from an object in an object stream to the stream.
pub open spec fn hop(s: Seq<u8>, e: Entry) -> Option<(u32, u32)> {
    match e {
        Entry::Compressed(n, c) => Some((n, c)),
        Entry::Normal(offset) => match stream_for(s, offset) {
            None => None,
            Some((n, f, _)) => match length_reference(s, f) {
                None => None,
                Some(m) => Some((n, m)),
            },
        },
    }
}

/// The hops of the first `n` entries.
pub open spec fn hops_upto(s: Seq<u8>, entries: Seq<Entry>, n: int) -> Seq<(u32, u32)>
    decreases n,
{
    if n <= 0 || n > entries.len() {
        Seq::empty()
    } else {
        match hop(s, entries[n - 1]) {
            None => hops_upto(s, entries, n - 1),
            Some(h) => hops_upto(s, entries, n - 1).push(h),
        }
    }
}

/// The numbers that the first `n` entries lead on to, those of compressed objects left out.
pub open spec fn lengths_upto(s: Seq<u8>, entries: Seq<Entry>, n: int) -> Seq<u32>
    decreases n,
{
    if n <= 0 || n > entries.len() {
        Seq::empty()
    } else {
        match (entries[n - 1], hop(s, entries[n - 1])) {
            (Entry::Normal(_), Some(h)) => lengths_upto(s, entries, n - 1).push(h.1),
            _ => lengths_upto(s, entries, n - 1),
        }
    }
}

fn collect_hops(s: &[u8], entries: &Vec<Entry>) -> (r: (Vec<(u32, u32)>, Vec<u32>))
    ensures
        r.0@ == hops_upto(s@, entries@, entries@.len() as int),
        r.1@ == lengths_upto(s@, entries@, entries@.len() as int),
{
    let mut hops: Vec<(u32, u32)> = Vec::new();
    let mut lengths: Vec<u32> = Vec::new();
    let mut k: usize = 0;
    assert(hops@ =~= Seq::empty());
    assert(lengths@ =~= Seq::empty());
    while k < entries.len()
        invariant
            k <= entries.len(),
            hops@ == hops_upto(s@, entries@, k as int),
            lengths@ == lengths_upto(s@, entries@, k as int),
        decreases entries.len() - k,
    {
        match entries[k] {
            Entry::Compressed(n, c) => {
                hops.push((n, c));
            },
            Entry::Normal(offset) => {
                if let Some((n, f, _)) = read_stream_for(s, offset) {
                    if let Some(m) = read_length_reference(s, &f) {
                        hops.push((n, m));
                        lengths.push(m);
                    }
                }
            },
        }
        k += 1;
    }
    (hops, lengths)
}

/// The numbers that the first `n` hops lead on to from the given ones.
pub open spec fn reached(hops: Seq<(u32, u32)>, from: Seq<u32>, n: int) -> Seq<u32>
    decreases n,
{
    if n <= 0 || n > hops.len() {
        Seq::empty()
    } else if from.contains(hops[n - 1].0) {
        reached(hops, from, n - 1).push(hops[n - 1].1)
    } else {
        reached(hops, from, n - 1)
    }
}

fn contains_number(v: &Vec<u32>, x: u32) -> (r: bool)
    ensures
        r == v@.contains(x),
{
    let mut i: usize = 0;
    while i < v.len()
        invariant
            i <= v.len(),
            forall|k: int| 0 <= k < i ==> v@[k] != x,
        decreases v.len() - i,
    {
        if v[i] == x {
            assert(v@[i as int] == x);
            return true;
        }
        i += 1;
    }
    false
}

fn reach(hops: &Vec<(u32, u32)>, from: &Vec<u32>) -> (r: Vec<u32>)
    ensures
        r@ == reached(hops@, from@, hops@.len() as int),
{
    let mut out: Vec<u32> = Vec::new();
    let mut i: usize = 0;
    assert(out@ =~= Seq::empty());
    while i < hops.len()
        invariant
            i <= hops.len(),
            out@ == reached(hops@, from@, i as int),
        decreases hops.len() - i,
    {
        if contains_number(from, hops[i].0) {
            out.push(hops[i].1);
        }
        i += 1;
    }
    out
}

/// How many objects may lead on to one another.
pub const MAX_HOPS: usize = 32;

/// Following hops from the given numbers comes to an end within `fuel` hops.
pub open spec fn hops_end(hops: Seq<(u32, u32)>, from: Seq<u32>, fuel: nat) -> bool
    decreases fuel,
{
    from.len() == 0 || (fuel > 0 && hops_end(hops, reached(hops, from, hops.len() as int), (fuel - 1) as nat))
}

fn check_hops(hops: &Vec<(u32, u32)>, from: Vec<u32>) -> (r: bool)
    ensures
        r == hops_end(hops@, from@, MAX_HOPS as nat),
{
    let ghost first = from@;
    let mut front: Vec<u32> = from;
    let mut fuel: usize = MAX_HOPS;
    loop
        invariant
            first == from@,
            hops_end(hops@, first, MAX_HOPS as nat) == hops_end(hops@, front@, fuel as nat),
        decreases fuel,
    {
        if front.len() == 0 {
            return true;
        }
        if fuel == 0 {
            return false;
        }
        front = reach(hops, &front);
        fuel -= 1;
    }
}

// ---------------------------------------------------------------------------
// Files

/// Some entry is that of a compressed object.
pub open spec fn packs_objects(entries: Seq<Entry>) -> bool {
    exists|k: int| 0 <= k < entries.len() && #[trigger] entries[k] is Compressed
}

fn check_packs(entries: &Vec<Entry>) -> (r: bool)
    ensures
        r == packs_objects(entries@),
{
    let mut k: usize = 0;
    while k < entries.len()
        invariant
            k <= entries.len(),
            forall|i: int| 0 <= i < k ==> !(#[trigger] entries@[i] is Compressed),
        decreases entries.len() - k,
    {
        if let Entry::Compressed(_, _) = entries[k] {
            assert(entries@[k as int] is Compressed);
            return true;
        }
        k += 1;
    }
    false
}

/// What the entries of a file lead to can be read: object streams can be unpacked,
/// following the lengths of streams comes to an end, and an encrypted file has no objects
/// in object streams.
pub open spec fn entries_fit(s: Seq<u8>, entries: Seq<Entry>) -> bool {
    &&& forall|k: int| 0 <= k < entries.len() ==> entry_fits(s, entries, #[trigger] entries[k])
    &&& hops_end(
        hops_upto(s, entries, entries.len() as int),
        lengths_upto(s, entries, entries.len() as int),
        MAX_HOPS as nat,
    )
    &&& !(mentions(s, lit("Encrypt")) && packs_objects(entries))
}

/// The bytes of a file from its header on.
pub open spec fn from_header(pdf: Seq<u8>) -> Seq<u8> {
    match first_from(pdf, lit("%PDF-"), 0) {
        Some(i) => pdf.skip(i),
        None => pdf,
    }
}

/// A file can be parsed: its objects nest within bounds, its numbers can be added to, what
/// can be a cross-reference stream can be read, and so can what its entries lead to.
#[verifier::opaque]
pub open spec fn readable(pdf: Seq<u8>) -> bool {
    let s = from_header(pdf);
    &&& shallow(s)
    &&& addable(s)
    &&& forall|p: int| 0 <= p < s.len() ==> #[trigger] table_fits(s, p)
    &&& entries_fit(s, entries_upto(s, s.len() as int))
}

fn check_entries(s: &[u8], entries: &Vec<Entry>) -> (r: bool)
    ensures
        r == entries_fit(s@, entries@),
{
    let mut k: usize = 0;
    while k < entries.len()
        invariant
            k <= entries.len(),
            forall|i: int| 0 <= i < k ==> entry_fits(s@, entries@, #[trigger] entries@[i]),
        decreases entries.len() - k,
    {
        if !check_entry(s, entries, entries[k]) {
            assert(!entry_fits(s@, entries@, entries@[k as int]));
            return false;
        }
        k += 1;
    }
    let (hops, lengths): (Vec<(u32, u32)>, Vec<u32>) = collect_hops(s, entries);
    if !check_hops(&hops, lengths) {
        return false;
    }
    !(has_mention(s, raw("Encrypt")) && check_packs(entries))
}

/// Whether a file can be parsed.
pub fn is_readable(pdf: &[u8]) -> (r: bool)
    ensures
        r == readable(pdf@),
{
    let base: usize = match find_sub(pdf, raw("%PDF-")) {
        Some(i) => i,
        None => 0,
    };
    let total: usize = pdf.len();
    let s: &[u8] = &pdf[base..total];
    assert(s@ =~= from_header(pdf@));
    reveal(readable);
    if !is_shallow(s) || !is_addable(s) {
        return false;
    }
    match collect_entries(s) {
        None => false,
        Some(entries) => check_entries(s, &entries),
    }
}

} // verus!
