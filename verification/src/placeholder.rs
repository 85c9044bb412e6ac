//! The placeholders of a signature dictionary: the `/ByteRange` numbers and the
//! `/Contents` hole that the signature itself is written into.
use vstd::prelude::*;

use crate::error::{malformed, Error, ErrorView};
use crate::util::{
    dec_int, find_from, first_from, hex, hex_encode, lemma_first_from, lemma_lit, lit,
    occurs_at, push_int, push_str, raw,
};

verus! {

/// Where the `/Contents` placeholder of `capacity` bytes stands: the indices of
/// its `<` and its `>`.
pub open spec fn located(buf: Seq<u8>, capacity: nat, start: int) -> Result<(int, int), ErrorView> {
    match first_from(buf, lit("/ByteRange"), start) {
        None => Err(ErrorView::Malformed("/ByteRange not found"@)),
        Some(br) => match first_from(buf, lit("/Contents"), br) {
            None => Err(ErrorView::Malformed("/Contents not found"@)),
            Some(from) => match first_from(buf, lit("<"), from) {
                None => Err(ErrorView::Malformed("Contents '<' not found"@)),
                Some(lt) => {
                    let gt = lt + 1 + 2 * capacity;
                    if gt >= buf.len() || buf[gt] != 0x3e {
                        Err(ErrorView::Malformed("Contents placeholder size mismatch"@))
                    } else {
                        Ok((lt, gt))
                    }
                },
            },
        },
    }
}

/// Find the `< 00..00 >` placeholder at or after `start`, returning the `<` and
/// `>` indices. `start` skips any prior (already-filled) signature. Searches
/// after `/ByteRange`, so that it never collides with a page's `/Contents`.
pub fn locate_contents_placeholder(buf: &[u8], capacity: usize, start: usize) -> (r: Result<(usize, usize), Error>)
    requires
        start <= buf.len(),
    ensures
        match located(buf@, capacity as nat, start as int) {
            Ok((lt, gt)) => r matches Ok((l, g)) && l == lt && g == gt && start <= l && l + 1 + 2 * capacity == g
                && g < buf.len(),
            Err(e) => r is Err && r->Err_0@ == e,
        },
{
    let total: usize = buf.len();
    let br: usize = match find_from(buf, raw("/ByteRange"), start) {
        None => {
            return Err(malformed("/ByteRange not found"));
        },
        Some(i) => i,
    };
    let from: usize = match find_from(buf, raw("/Contents"), br) {
        None => {
            return Err(malformed("/Contents not found"));
        },
        Some(i) => i,
    };
    let lt: usize = match find_from(buf, raw("<"), from) {
        None => {
            return Err(malformed("Contents '<' not found"));
        },
        Some(i) => i,
    };
    proof {
        reveal_strlit("<");
        lemma_lit("<");
    }
    let room: usize = total - lt - 1;
    if capacity > room / 2 || 2 * capacity >= room || buf[lt + 1 + 2 * capacity] != 0x3e {
        return Err(malformed("Contents placeholder size mismatch"));
    }
    Ok((lt, lt + 1 + 2 * capacity))
}

// ---------------------------------------------------------------------------
// ByteRange

/// Where the brackets of the `/ByteRange` array at or after `start` stand.
pub open spec fn byte_range_span(buf: Seq<u8>, start: int) -> Result<(int, int), ErrorView> {
    match first_from(buf, lit("/ByteRange"), start) {
        None => Err(ErrorView::Malformed("/ByteRange not found"@)),
        Some(br) => match first_from(buf, lit("["), br) {
            None => Err(ErrorView::Malformed("ByteRange '[' not found"@)),
            Some(open) => match first_from(buf, lit("]"), open) {
                None => Err(ErrorView::Malformed("ByteRange ']' not found"@)),
                Some(close) => Ok((open, close)),
            },
        },
    }
}

/// The four numbers, without the closing bracket.
pub open spec fn range_text(a: int, b: int, c: int) -> Seq<u8> {
    lit("[0 ") + dec_int(a) + lit(" ") + dec_int(b) + lit(" ") + dec_int(c)
}

/// A run of spaces.
pub open spec fn spaces(n: int) -> Seq<u8> {
    Seq::new(n as nat, |i: int| 0x20u8)
}

/// The file with the given numbers in its `/ByteRange` array, padded with spaces
/// to the old length.
pub open spec fn patched(buf: Seq<u8>, start: int, a: int, b: int, c: int) -> Result<Seq<u8>, ErrorView> {
    match byte_range_span(buf, start) {
        Err(e) => Err(e),
        Ok((open, close)) => {
            let text = range_text(a, b, c);
            let span = close - open + 1;
            if text.len() + 1 > span {
                Err(ErrorView::Malformed("ByteRange placeholder too small"@))
            } else {
                Ok(buf.take(open) + (text + spaces(span - text.len() - 1) + lit("]")) + buf.skip(close + 1))
            }
        },
    }
}

/// Writes `part` into `buf` from index `at` on.
fn overwrite(buf: &mut Vec<u8>, at: usize, part: &[u8])
    requires
        at + part.len() <= old(buf).len(),
    ensures
        final(buf)@ == old(buf)@.take(at as int) + part@ + old(buf)@.skip(at + part@.len()),
{
    let ghost before = buf@;
    let total: usize = buf.len();
    let mut i: usize = 0;
    while i < part.len()
        invariant
            i <= part.len(),
            total == before.len(),
            at + part.len() <= total,
            buf@ =~= before.take(at as int) + part@.take(i as int) + before.skip(at + i),
        decreases part.len() - i,
    {
        buf.set(at + i, part[i]);
        i += 1;
    }
    assert(part@.take(i as int) =~= part@);
}

/// Replace the `/ByteRange [...]` array (at or after `start`) with concrete
/// offsets, padding with spaces so the byte length is unchanged.
pub fn patch_byte_range(buf: &mut Vec<u8>, start: usize, a: i64, b: i64, c: i64) -> (r: Result<(), Error>)
    requires
        start <= old(buf).len(),
    ensures
        match patched(old(buf)@, start as int, a as int, b as int, c as int) {
            Ok(v) => r is Ok && final(buf)@ == v,
            Err(e) => r is Err && r->Err_0@ == e && final(buf)@ == old(buf)@,
        },
{
    let total: usize = buf.len();
    let br: usize = match find_from(buf, raw("/ByteRange"), start) {
        None => {
            return Err(malformed("/ByteRange not found"));
        },
        Some(i) => i,
    };
    let open: usize = match find_from(buf, raw("["), br) {
        None => {
            return Err(malformed("ByteRange '[' not found"));
        },
        Some(i) => i,
    };
    let close: usize = match find_from(buf, raw("]"), open) {
        None => {
            return Err(malformed("ByteRange ']' not found"));
        },
        Some(i) => i,
    };
    proof {
        reveal_strlit("]");
        lemma_lit("]");
    }
    let span: usize = close - open + 1;
    let mut replacement: Vec<u8> = Vec::new();
    push_str(&mut replacement, "[0 ");
    push_int(&mut replacement, a);
    push_str(&mut replacement, " ");
    push_int(&mut replacement, b);
    push_str(&mut replacement, " ");
    push_int(&mut replacement, c);
    let ghost text = range_text(a as int, b as int, c as int);
    assert(replacement@ =~= text);
    if replacement.len() >= span {
        return Err(malformed("ByteRange placeholder too small"));
    }
    let text_len: usize = replacement.len();
    while replacement.len() < span - 1
        invariant
            text.len() == text_len,
            text_len <= replacement.len() <= span - 1,
            replacement@ == text + spaces(replacement@.len() - text_len),
        decreases span - replacement.len(),
    {
        replacement.push(0x20);
        assert(replacement@ =~= text + spaces(replacement@.len() - text_len));
    }
    push_str(&mut replacement, "]");
    overwrite(buf, open, &replacement);
    Ok(())
}

// ---------------------------------------------------------------------------
// Contents

/// What is signed: the file without the bytes from `p` up to `q`.
pub open spec fn outside(buf: Seq<u8>, p: int, q: int) -> Seq<u8> {
    buf.take(p) + buf.skip(q)
}

/// Zeros in hexadecimal digits.
pub open spec fn zero_digits(n: int) -> Seq<u8> {
    Seq::new(n as nat, |i: int| 0x30u8)
}

/// The file with the signature written in hexadecimal behind the `<` at `lt`,
/// and zeros in the rest of the placeholder.
pub open spec fn filled(buf: Seq<u8>, lt: int, capacity: nat, der: Seq<u8>) -> Result<Seq<u8>, ErrorView> {
    if der.len() > capacity {
        Err(ErrorView::PlaceholderTooSmall { needed: der.len() as int, capacity: capacity as int })
    } else {
        Ok(buf.take(lt + 1) + (hex(der) + zero_digits(2 * capacity - 2 * der.len())) + buf.skip(lt + 1 + 2 * capacity))
    }
}

/// Write the signature hex into the placeholder behind the `<` at `lt`.
pub fn fill_contents(buf: &mut Vec<u8>, lt: usize, capacity: usize, der: &[u8]) -> (r: Result<(), Error>)
    requires
        lt + 1 + 2 * capacity <= old(buf).len(),
    ensures
        match filled(old(buf)@, lt as int, capacity as nat, der@) {
            Ok(v) => r is Ok && final(buf)@ == v,
            Err(e) => r is Err && r->Err_0@ == e && final(buf)@ == old(buf)@,
        },
{
    let total: usize = buf.len();
    if der.len() > capacity {
        return Err(Error::PlaceholderTooSmall { needed: der.len(), capacity });
    }
    let mut region: Vec<u8> = hex_encode(der);
    let size: usize = capacity * 2;
    while region.len() < size
        invariant
            2 * der@.len() <= region.len() <= size,
            region@ == hex(der@) + zero_digits(region@.len() - 2 * der@.len()),
        decreases size - region.len(),
    {
        region.push(0x30);
        assert(region@ =~= hex(der@) + zero_digits(region@.len() - 2 * der@.len()));
    }
    overwrite(buf, lt + 1, &region);
    Ok(())
}

/// The file without the bytes from `p` up to `q`.
pub fn bytes_outside(buf: &[u8], p: usize, q: usize) -> (r: Vec<u8>)
    requires
        p <= q <= buf.len(),
    ensures
        r@ == outside(buf@, p as int, q as int),
{
    let mut r: Vec<u8> = Vec::new();
    r.extend_from_slice(&buf[0..p]);
    r.extend_from_slice(&buf[q..buf.len()]);
    assert(r@ =~= outside(buf@, p as int, q as int));
    r
}

// ---------------------------------------------------------------------------
// Laws

/// Writing the byte range keeps the length of the file and every byte outside
/// the brackets.
pub proof fn law_patch_keeps_rest(buf: Seq<u8>, start: int, a: int, b: int, c: int)
    requires
        0 <= start <= buf.len(),
        patched(buf, start, a, b, c) is Ok,
    ensures
        ({
            let v = patched(buf, start, a, b, c)->Ok_0;
            let (open, close) = byte_range_span(buf, start)->Ok_0;
            &&& byte_range_span(buf, start) is Ok
            &&& start <= open < close < buf.len()
            &&& v.len() == buf.len()
            &&& forall|i: int| 0 <= i < buf.len() && !(open <= i <= close) ==> #[trigger] v[i] == buf[i]
        }),
{
    lemma_first_from(buf, lit("/ByteRange"), start);
    let br = first_from(buf, lit("/ByteRange"), start)->0;
    lemma_first_from(buf, lit("["), br);
    let open = first_from(buf, lit("["), br)->0;
    lemma_first_from(buf, lit("]"), open);
    let close = first_from(buf, lit("]"), open)->0;
    reveal_strlit("[");
    reveal_strlit("]");
    reveal_strlit("[0 ");
    lemma_lit("[");
    lemma_lit("]");
    lemma_lit("[0 ");
    let text = range_text(a, b, c);
    let span = close - open + 1;
    assert(occurs_at(buf, lit("]"), close));
    assert(text.len() >= 3);
    let mid = text + spaces(span - text.len() - 1) + lit("]");
    assert(mid.len() == span);
}

/// Writing the signature changes nothing but the inside of its placeholder: the
/// bytes that were signed stay as they are, and so does the length of the file.
pub proof fn law_fill_keeps_signed_bytes(buf: Seq<u8>, lt: int, capacity: nat, der: Seq<u8>)
    requires
        0 <= lt,
        lt + 1 + 2 * capacity < buf.len(),
        filled(buf, lt, capacity, der) is Ok,
    ensures
        ({
            let v = filled(buf, lt, capacity, der)->Ok_0;
            &&& v.len() == buf.len()
            &&& outside(v, lt, lt + 2 + 2 * capacity) == outside(buf, lt, lt + 2 + 2 * capacity)
            &&& v[lt] == buf[lt]
            &&& v[lt + 1 + 2 * capacity] == buf[lt + 1 + 2 * capacity]
            &&& v.subrange(lt + 1, lt + 1 + 2 * capacity) == hex(der) + zero_digits(2 * capacity - 2 * der.len())
        }),
{
    let v = filled(buf, lt, capacity, der)->Ok_0;
    let mid = hex(der) + zero_digits(2 * capacity - 2 * der.len());
    assert(mid.len() == 2 * capacity);
    assert(v.subrange(lt + 1, lt + 1 + 2 * capacity) =~= mid);
    assert(v.take(lt) =~= buf.take(lt));
    assert(v.skip(lt + 2 + 2 * capacity) =~= buf.skip(lt + 2 + 2 * capacity));
}

} // verus!
