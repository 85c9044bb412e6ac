//! Reading DER values off bytes: tags, lengths and where contents stand.
use vstd::prelude::*;

use crate::util::be_value;

verus! {

/// A DER value in a byte string: its tag, and where its content begins and ends.
pub struct Value {
    pub tag: u8,
    pub start: usize,
    pub end: usize,
}

/// The length field at index `i`: how many bytes it takes, and the length. It
/// takes one byte where it can, otherwise as few as possible, at most four behind
/// the first.
pub open spec fn length_at(s: Seq<u8>, i: int) -> Option<(int, int)> {
    if i < 0 || i >= s.len() {
        None
    } else if s[i] < 0x80 {
        Some((1, s[i] as int))
    } else {
        let k = s[i] - 0x80;
        if k < 1 || k > 4 || i + 1 + k > s.len() || s[i + 1] == 0 {
            None
        } else {
            let n = be_value(s.subrange(i + 1, i + 1 + k));
            if n < 0x80 {
                None
            } else {
                Some((1 + k, n as int))
            }
        }
    }
}

/// The DER value at index `i`: its tag, and where its content begins and ends.
pub open spec fn value_at(s: Seq<u8>, i: int) -> Option<(u8, int, int)> {
    match length_at(s, i + 1) {
        None => None,
        Some((k, n)) => if i < 0 || i + 1 + k + n > s.len() {
            None
        } else {
            Some((s[i], i + 1 + k, i + 1 + k + n))
        },
    }
}

/// A tag of one byte that a DER value can have.
pub open spec fn is_der_tag(t: u8) -> bool {
    if t < 0x40 {
        (0x01 <= t <= 0x06) || t == 0x09 || t == 0x0a || t == 0x0c || (0x12 <= t <= 0x18) || t == 0x1a || t == 0x1e || t
            == 0x30 || t == 0x31
    } else {
        t % 32 != 31
    }
}

/// Whether a DER value can have the tag.
pub fn der_tag(t: u8) -> (r: bool)
    ensures
        r == is_der_tag(t),
{
    if t < 0x40 {
        (0x01 <= t && t <= 0x06) || t == 0x09 || t == 0x0a || t == 0x0c || (0x12 <= t && t <= 0x18) || t == 0x1a || t
            == 0x1e || t == 0x30 || t == 0x31
    } else {
        t % 32 != 31
    }
}

/// Reads the DER value at index `i`.
pub fn read_value(s: &[u8], i: usize) -> (r: Option<Value>)
    ensures
        match value_at(s@, i as int) {
            None => r is None,
            Some((tag, start, end)) => r matches Some(v) && v.tag == tag && v.start == start && v.end == end && i
                < v.start <= v.end <= s@.len(),
        },
{
    let total: usize = s.len();
    if i >= total || total - i < 2 {
        return None;
    }
    let first: u8 = s[i + 1];
    if first < 0x80 {
        let n: usize = first as usize;
        if total - i - 2 < n {
            return None;
        }
        return Some(Value { tag: s[i], start: i + 2, end: i + 2 + n });
    }
    let k: usize = (first - 0x80) as usize;
    if k < 1 || k > 4 || total - i - 2 < k || s[i + 2] == 0 {
        return None;
    }
    let mut n: u64 = 0;
    let mut j: usize = 0;
    while j < k
        invariant
            total == s.len(),
            i + 2 + k <= total,
            j <= k <= 4,
            n == be_value(s@.subrange(i + 2, i + 2 + j)),
            j == 0 ==> n == 0,
            j == 1 ==> n < 0x100,
            j == 2 ==> n < 0x1_0000,
            j == 3 ==> n < 0x100_0000,
            j == 4 ==> n < 0x1_0000_0000,
        decreases k - j,
    {
        assert(s@.subrange(i + 2, i + 2 + j + 1).drop_last() =~= s@.subrange(i + 2, i + 2 + j));
        n = n * 256 + s[i + 2 + j] as u64;
        j += 1;
    }
    if n < 0x80 || n > (total - i - 2 - k) as u64 {
        return None;
    }
    Some(Value { tag: s[i], start: i + 2 + k, end: i + 2 + k + n as usize })
}

/// The bytes of a DER value with a short content, up to 127 bytes.
pub open spec fn short_value(tag: u8, content: Seq<u8>) -> Seq<u8> {
    seq![tag, content.len() as u8] + content
}

/// A value that was written is read back: its tag, and the place of its content.
pub proof fn law_short_value_reads_back(tag: u8, content: Seq<u8>, rest: Seq<u8>)
    requires
        content.len() < 0x80,
    ensures
        value_at(short_value(tag, content) + rest, 0) == Some((tag, 2int, 2 + content.len() as int)),
        (short_value(tag, content) + rest).subrange(2, 2 + content.len() as int) == content,
{
    let s = short_value(tag, content) + rest;
    assert(s[0] == tag && s[1] == content.len() as u8);
    assert(s.subrange(2, 2 + content.len() as int) =~= content);
}

/// Writes a DER value with a short content.
pub fn write_short(tag: u8, content: &[u8]) -> (r: Vec<u8>)
    requires
        content.len() < 0x80,
    ensures
        r@ == short_value(tag, content@),
{
    let mut r: Vec<u8> = Vec::new();
    r.push(tag);
    r.push(content.len() as u8);
    r.extend_from_slice(content);
    assert(r@ =~= short_value(tag, content@));
    r
}

} // verus!
