//! The tokens of a file: where objects begin and end, how deeply they nest, and what
//! stands under the keys of a dictionary, told from the bytes alone.
use vstd::prelude::*;

use crate::util::raw;

verus! {

// ---------------------------------------------------------------------------
// Tokens

/// A byte of white space.
pub open spec fn is_gap(b: u8) -> bool {
    b == 0x20 || b == 0x09 || b == 0x0a || b == 0x0d || b == 0x00 || b == 0x0c
}

/// A byte that delimits tokens.
pub open spec fn is_bound(b: u8) -> bool {
    b == 0x28 || b == 0x29 || b == 0x3c || b == 0x3e || b == 0x5b || b == 0x5d || b == 0x7b || b == 0x7d || b == 0x2f
        || b == 0x25
}

/// A byte of a name, a number or a keyword.
pub open spec fn is_part(b: u8) -> bool {
    !is_gap(b) && !is_bound(b)
}

/// A decimal digit.
pub open spec fn is_digit(b: u8) -> bool {
    0x30 <= b <= 0x39
}

fn gap(b: u8) -> (r: bool)
    ensures
        r == is_gap(b),
{
    b == 0x20 || b == 0x09 || b == 0x0a || b == 0x0d || b == 0x00 || b == 0x0c
}

fn bound(b: u8) -> (r: bool)
    ensures
        r == is_bound(b),
{
    b == 0x28 || b == 0x29 || b == 0x3c || b == 0x3e || b == 0x5b || b == 0x5d || b == 0x7b || b == 0x7d || b == 0x2f
        || b == 0x25
}

fn part(b: u8) -> (r: bool)
    ensures
        r == is_part(b),
{
    !gap(b) && !bound(b)
}

/// Whether a byte is a decimal digit.
pub fn digit(b: u8) -> (r: bool)
    ensures
        r == is_digit(b),
{
    0x30 <= b && b <= 0x39
}

/// Where the next token begins, at or after `i`: behind white space and comments.
/// `comment` tells that a comment goes on at `i`.
pub open spec fn skip(s: Seq<u8>, i: int, comment: bool) -> int
    decreases s.len() - i,
{
    if i < 0 || i >= s.len() {
        i
    } else if comment {
        skip(s, i + 1, s[i] != 0x0a && s[i] != 0x0d)
    } else if is_gap(s[i]) {
        skip(s, i + 1, false)
    } else if s[i] == 0x25 {
        skip(s, i + 1, true)
    } else {
        i
    }
}

/// Where the next token begins, at or after `i`.
pub fn skip_gaps(s: &[u8], i: usize) -> (r: usize)
    requires
        i <= s.len(),
    ensures
        r == skip(s@, i as int, false),
        i <= r <= s.len(),
{
    let mut j: usize = i;
    let mut comment: bool = false;
    while j < s.len()
        invariant
            i <= j <= s.len(),
            skip(s@, i as int, false) == skip(s@, j as int, comment),
        decreases s.len() - j,
    {
        let b: u8 = s[j];
        if comment {
            comment = b != 0x0a && b != 0x0d;
        } else if gap(b) {
        } else if b == 0x25 {
            comment = true;
        } else {
            return j;
        }
        j += 1;
    }
    j
}

/// Where the bytes of a name, a number or a keyword end, from `i` on.
pub open spec fn parts_end(s: Seq<u8>, i: int) -> int
    decreases s.len() - i,
{
    if i < 0 || i >= s.len() || !is_part(s[i]) {
        i
    } else {
        parts_end(s, i + 1)
    }
}

/// Where the bytes of a name, a number or a keyword end, from `i` on.
pub fn find_parts_end(s: &[u8], i: usize) -> (r: usize)
    requires
        i <= s.len(),
    ensures
        r == parts_end(s@, i as int),
        i <= r <= s.len(),
{
    let mut j: usize = i;
    while j < s.len() && part(s[j])
        invariant
            i <= j <= s.len(),
            parts_end(s@, i as int) == parts_end(s@, j as int),
        decreases s.len() - j,
    {
        j += 1;
    }
    j
}

/// Where a literal string ends that is open at `i` with `k` brackets; `escaped` tells that
/// a backslash stands in front.
pub open spec fn string_end(s: Seq<u8>, i: int, k: int, escaped: bool) -> int
    decreases s.len() - i,
{
    if i < 0 || i >= s.len() {
        i
    } else if escaped {
        string_end(s, i + 1, k, false)
    } else if s[i] == 0x5c {
        string_end(s, i + 1, k, true)
    } else if s[i] == 0x28 {
        string_end(s, i + 1, k + 1, false)
    } else if s[i] == 0x29 {
        if k <= 1 {
            i + 1
        } else {
            string_end(s, i + 1, k - 1, false)
        }
    } else {
        string_end(s, i + 1, k, false)
    }
}

fn find_string_end(s: &[u8], i: usize) -> (r: usize)
    requires
        i <= s.len(),
    ensures
        r == string_end(s@, i as int, 1, false),
        i <= r <= s.len(),
{
    let mut j: usize = i;
    let mut k: u128 = 1;
    let mut escaped: bool = false;
    while j < s.len()
        invariant
            i <= j <= s.len(),
            1 <= k <= j - i + 1,
            string_end(s@, i as int, 1, false) == string_end(s@, j as int, k as int, escaped),
        decreases s.len() - j,
    {
        let b: u8 = s[j];
        j += 1;
        if escaped {
            escaped = false;
        } else if b == 0x5c {
            escaped = true;
        } else if b == 0x28 {
            k += 1;
        } else if b == 0x29 {
            if k <= 1 {
                return j;
            }
            k -= 1;
        }
    }
    j
}

/// Where a hexadecimal string ends that is open at `i`.
pub open spec fn hex_end(s: Seq<u8>, i: int) -> int
    decreases s.len() - i,
{
    if i < 0 || i >= s.len() {
        i
    } else if s[i] == 0x3e {
        i + 1
    } else {
        hex_end(s, i + 1)
    }
}

fn find_hex_end(s: &[u8], i: usize) -> (r: usize)
    requires
        i <= s.len(),
    ensures
        r == hex_end(s@, i as int),
        i <= r <= s.len(),
{
    let mut j: usize = i;
    while j < s.len()
        invariant
            i <= j <= s.len(),
            hex_end(s@, i as int) == hex_end(s@, j as int),
        decreases s.len() - j,
    {
        if s[j] == 0x3e {
            return j + 1;
        }
        j += 1;
    }
    j
}

/// Two of the given bytes stand at `i`.
pub open spec fn twice_at(s: Seq<u8>, i: int, b: u8) -> bool {
    0 <= i && i + 1 < s.len() && s[i] == b && s[i + 1] == b
}

fn stands_twice(s: &[u8], i: usize, b: u8) -> (r: bool)
    requires
        i < s.len(),
    ensures
        r == twice_at(s@, i as int, b),
{
    s.len() - i > 1 && s[i] == b && s[i + 1] == b
}

/// Where the token at `i` ends.
pub open spec fn token_end(s: Seq<u8>, i: int) -> int {
    if s[i] == 0x28 {
        string_end(s, i + 1, 1, false)
    } else if s[i] == 0x2f {
        parts_end(s, i + 1)
    } else if twice_at(s, i, 0x3c) || twice_at(s, i, 0x3e) {
        i + 2
    } else if s[i] == 0x3c {
        hex_end(s, i + 1)
    } else if is_bound(s[i]) {
        i + 1
    } else {
        parts_end(s, i + 1)
    }
}

/// Where the token at `i` ends.
pub fn find_token_end(s: &[u8], i: usize) -> (r: usize)
    requires
        i < s.len(),
    ensures
        r == token_end(s@, i as int),
        i < r <= s.len(),
{
    let b: u8 = s[i];
    if b == 0x28 {
        find_string_end(s, i + 1)
    } else if b == 0x2f {
        find_parts_end(s, i + 1)
    } else if stands_twice(s, i, 0x3c) || stands_twice(s, i, 0x3e) {
        i + 2
    } else if b == 0x3c {
        find_hex_end(s, i + 1)
    } else if bound(b) {
        i + 1
    } else {
        find_parts_end(s, i + 1)
    }
}

/// An array or a dictionary begins at `i`.
pub open spec fn opens_at(s: Seq<u8>, i: int) -> bool {
    0 <= i < s.len() && (s[i] == 0x5b || twice_at(s, i, 0x3c))
}

/// An array or a dictionary ends at `i`.
pub open spec fn closes_at(s: Seq<u8>, i: int) -> bool {
    0 <= i < s.len() && (s[i] == 0x5d || twice_at(s, i, 0x3e))
}

/// A string, a name, a number or a keyword of an object begins at `i`.
pub open spec fn atom_at(s: Seq<u8>, i: int) -> bool {
    0 <= i < s.len() && (s[i] == 0x28 || s[i] == 0x2f || s[i] == 0x3c || is_digit(s[i]) || s[i] == 0x2b || s[i] == 0x2d
        || s[i] == 0x2e || s[i] == 0x74 || s[i] == 0x66 || s[i] == 0x6e || s[i] == 0x52)
}

/// Whether an array or a dictionary begins at `i`.
pub fn opens(s: &[u8], i: usize) -> (r: bool)
    requires
        i < s.len(),
    ensures
        r == opens_at(s@, i as int),
{
    s[i] == 0x5b || stands_twice(s, i, 0x3c)
}

fn closes(s: &[u8], i: usize) -> (r: bool)
    requires
        i < s.len(),
    ensures
        r == closes_at(s@, i as int),
{
    s[i] == 0x5d || stands_twice(s, i, 0x3e)
}

fn is_atom(s: &[u8], i: usize) -> (r: bool)
    requires
        i < s.len(),
    ensures
        r == atom_at(s@, i as int),
{
    let b: u8 = s[i];
    b == 0x28 || b == 0x2f || b == 0x3c || digit(b) || b == 0x2b || b == 0x2d || b == 0x2e || b == 0x74 || b == 0x66 || b
        == 0x6e || b == 0x52
}

// ---------------------------------------------------------------------------
// Nesting

/// How deeply arrays and dictionaries may nest.
pub const MAX_NESTING: usize = 64;

/// The object that is open at `i` with `d` brackets does not nest too deeply.
pub open spec fn shallow_from(s: Seq<u8>, i: int, d: int) -> bool
    decreases s.len() - i,
{
    let j = skip(s, i, false);
    if i < 0 || j < i || j >= s.len() {
        true
    } else {
        let e = token_end(s, j);
        if e <= j || e > s.len() {
            true
        } else if opens_at(s, j) {
            d < MAX_NESTING && shallow_from(s, e, d + 1)
        } else if closes_at(s, j) {
            d <= 1 || shallow_from(s, e, d - 1)
        } else if atom_at(s, j) {
            shallow_from(s, e, d)
        } else {
            true
        }
    }
}

/// No object in the bytes nests too deeply, wherever it begins.
pub open spec fn shallow(s: Seq<u8>) -> bool {
    forall|i: int| #[trigger] opens_at(s, i) ==> shallow_from(s, i, 0)
}

fn is_shallow_from(s: &[u8], i: usize) -> (r: bool)
    requires
        i <= s.len(),
    ensures
        r == shallow_from(s@, i as int, 0),
{
    let mut at: usize = i;
    let mut d: usize = 0;
    loop
        invariant
            at <= s.len(),
            d <= MAX_NESTING,
            shallow_from(s@, i as int, 0) == shallow_from(s@, at as int, d as int),
        decreases s.len() - at,
    {
        let j: usize = skip_gaps(s, at);
        if j >= s.len() {
            return true;
        }
        let e: usize = find_token_end(s, j);
        if opens(s, j) {
            if d >= MAX_NESTING {
                return false;
            }
            d += 1;
        } else if closes(s, j) {
            if d <= 1 {
                return true;
            }
            d -= 1;
        } else if !is_atom(s, j) {
            return true;
        }
        at = e;
    }
}

/// Whether no object in the bytes nests too deeply, wherever it begins.
pub fn is_shallow(s: &[u8]) -> (r: bool)
    ensures
        r == shallow(s@),
{
    let mut i: usize = 0;
    while i < s.len()
        invariant
            i <= s.len(),
            forall|k: int| 0 <= k < i && #[trigger] opens_at(s@, k) ==> shallow_from(s@, k, 0),
        decreases s.len() - i,
    {
        if opens(s, i) && !is_shallow_from(s, i) {
            assert(opens_at(s@, i as int) && !shallow_from(s@, i as int, 0));
            return false;
        }
        i += 1;
    }
    true
}

// ---------------------------------------------------------------------------
// Numbers

/// Numbers from here on are not told apart.
pub const HUGE: u128 = 0x1_0000_0000_0000_0000;

/// Where the digits end, from `i` on.
pub open spec fn digits_end(s: Seq<u8>, i: int) -> int
    decreases s.len() - i,
{
    if i < 0 || i >= s.len() || !is_digit(s[i]) {
        i
    } else {
        digits_end(s, i + 1)
    }
}

/// The value of the digits from `i` on, behind digits with the value `acc`.
pub open spec fn digits_value(s: Seq<u8>, i: int, acc: int) -> int
    decreases s.len() - i,
{
    if i < 0 || i >= s.len() || !is_digit(s[i]) {
        acc
    } else {
        let v = acc * 10 + (s[i] - 0x30);
        digits_value(s, i + 1, if v >= HUGE { HUGE as int } else { v })
    }
}

/// The value of the digits from `i` on, and where they end.
pub fn read_digits(s: &[u8], i: usize) -> (r: (u128, usize))
    requires
        i <= s.len(),
    ensures
        r.0 == digits_value(s@, i as int, 0),
        r.0 <= HUGE,
        r.1 == digits_end(s@, i as int),
        i <= r.1 <= s.len(),
{
    let mut j: usize = i;
    let mut v: u128 = 0;
    while j < s.len() && digit(s[j])
        invariant
            i <= j <= s.len(),
            v <= HUGE,
            digits_value(s@, i as int, 0) == digits_value(s@, j as int, v as int),
            digits_end(s@, i as int) == digits_end(s@, j as int),
        decreases s.len() - j,
    {
        v = v * 10 + (s[j] - 0x30) as u128;
        if v >= HUGE {
            v = HUGE;
        }
        j += 1;
    }
    (v, j)
}

/// The digits from `i` on are a number that offsets and counts can be added to, or one
/// that is not read at all.
pub open spec fn addable_at(s: Seq<u8>, i: int) -> bool {
    let v = digits_value(s, i, 0);
    v >= HUGE || (v < 0x4000_0000_0000_0000 && (v <= usize::MAX ==> v + s.len() <= usize::MAX))
}

/// A line begins at `i`.
pub open spec fn line_begins(s: Seq<u8>, i: int) -> bool {
    i == 0 || (0 < i <= s.len() && (s[i - 1] == 0x0a || s[i - 1] == 0x0d))
}

/// No number at the beginning of a line is so large that adding an offset to it overflows.
pub open spec fn addable(s: Seq<u8>) -> bool {
    forall|i: int| 0 <= i < s.len() && is_digit(#[trigger] s[i]) && line_begins(s, i) ==> addable_at(s, i)
}

/// Whether no number at the beginning of a line is so large that adding an offset to it
/// overflows.
pub fn is_addable(s: &[u8]) -> (r: bool)
    ensures
        r == addable(s@),
{
    let mut i: usize = 0;
    let total: usize = s.len();
    while i < s.len()
        invariant
            total == s.len(),
            i <= s.len(),
            forall|k: int|
                0 <= k < i && is_digit(#[trigger] s@[k]) && line_begins(s@, k) ==> addable_at(s@, k),
        decreases s.len() - i,
    {
        if digit(s[i]) && (i == 0 || s[i - 1] == 0x0a || s[i - 1] == 0x0d) {
            let (v, _): (u128, usize) = read_digits(s, i);
            let fits: bool = v >= HUGE || (v < 0x4000_0000_0000_0000 && (v > usize::MAX as u128 || v + total as u128
                <= usize::MAX as u128));
            if !fits {
                assert(is_digit(s@[i as int]) && !addable_at(s@, i as int));
                return false;
            }
        }
        i += 1;
    }
    true
}

/// The reference at `i`: the number that it refers to.
pub open spec fn reference_at(s: Seq<u8>, i: int) -> Option<u32> {
    let e = digits_end(s, i);
    let p = skip(s, e, false);
    let f = digits_end(s, p);
    let q = skip(s, f, false);
    if e > i && f > p && 0 <= q < s.len() && s[q] == 0x52 && digits_value(s, i, 0) <= u32::MAX && digits_value(s, p, 0)
        <= u16::MAX {
        Some(digits_value(s, i, 0) as u32)
    } else {
        None
    }
}

/// The reference at `i`.
pub fn read_reference(s: &[u8], i: usize) -> (r: Option<u32>)
    requires
        i <= s.len(),
    ensures
        r == reference_at(s@, i as int),
{
    let (v, e): (u128, usize) = read_digits(s, i);
    let p: usize = skip_gaps(s, e);
    let (w, f): (u128, usize) = read_digits(s, p);
    let q: usize = skip_gaps(s, f);
    if e > i && f > p && q < s.len() && s[q] == 0x52 && v <= u32::MAX as u128 && w <= u16::MAX as u128 {
        Some(v as u32)
    } else {
        None
    }
}

/// Where the digits of an integer at `i` begin, behind its sign.
pub open spec fn behind_sign(s: Seq<u8>, i: int) -> int {
    if 0 <= i < s.len() && (s[i] == 0x2b || s[i] == 0x2d) {
        i + 1
    } else {
        i
    }
}

/// The integer at `i`, and where it ends.
pub open spec fn integer_at(s: Seq<u8>, i: int) -> Option<(i64, int)> {
    let k = behind_sign(s, i);
    let e = digits_end(s, k);
    let v = digits_value(s, k, 0);
    if e <= k || (0 <= e < s.len() && s[e] == 0x2e) || reference_at(s, i) is Some {
        None
    } else if k > i && s[i] == 0x2d {
        if v <= 0x7fff_ffff_ffff_ffff {
            Some(((-v) as i64, e))
        } else {
            None
        }
    } else if v <= 0x7fff_ffff_ffff_ffff {
        Some((v as i64, e))
    } else {
        None
    }
}

/// The integer at `i`, and where it ends.
pub fn read_integer(s: &[u8], i: usize) -> (r: Option<(i64, usize)>)
    requires
        i <= s.len(),
    ensures
        match integer_at(s@, i as int) {
            Some((v, e)) => r matches Some((x, f)) && x == v && f == e && i < f <= s.len(),
            None => r is None,
        },
{
    let signed: bool = i < s.len() && (s[i] == 0x2b || s[i] == 0x2d);
    let k: usize = if signed { i + 1 } else { i };
    let (v, e): (u128, usize) = read_digits(s, k);
    if e <= k || (e < s.len() && s[e] == 0x2e) || read_reference(s, i).is_some() {
        return None;
    }
    if v > 0x7fff_ffff_ffff_ffff {
        return None;
    }
    if signed && s[i] == 0x2d {
        Some((-(v as i64), e))
    } else {
        Some((v as i64, e))
    }
}

/// The integers of an array behind those that were read, from `i` on, where it holds
/// nothing else.
pub open spec fn integers_from(s: Seq<u8>, i: int, acc: Seq<i64>) -> Option<Seq<i64>>
    decreases s.len() - i,
{
    let j = skip(s, i, false);
    if i < 0 || j < i || j >= s.len() {
        None
    } else if s[j] == 0x5d {
        Some(acc)
    } else {
        match integer_at(s, j) {
            None => None,
            Some((v, e)) => if e <= j || e > s.len() {
                None
            } else {
                integers_from(s, e, acc.push(v))
            },
        }
    }
}

/// The integers of the array at `i`, where it is one of integers.
pub open spec fn integers_at(s: Seq<u8>, i: int) -> Option<Seq<i64>> {
    if 0 <= i < s.len() && s[i] == 0x5b {
        integers_from(s, i + 1, Seq::empty())
    } else {
        None
    }
}

/// The integers of the array at `i`.
pub fn read_integers(s: &[u8], i: usize) -> (r: Option<Vec<i64>>)
    requires
        i <= s.len(),
    ensures
        match integers_at(s@, i as int) {
            Some(v) => r is Some && r->0@ == v,
            None => r is None,
        },
{
    if i >= s.len() || s[i] != 0x5b {
        return None;
    }
    let mut out: Vec<i64> = Vec::new();
    let mut at: usize = i + 1;
    assert(out@ =~= Seq::empty());
    loop
        invariant
            at <= s.len(),
            integers_at(s@, i as int) == integers_from(s@, at as int, out@),
        decreases s.len() - at,
    {
        let j: usize = skip_gaps(s, at);
        if j >= s.len() {
            return None;
        }
        if s[j] == 0x5d {
            return Some(out);
        }
        match read_integer(s, j) {
            None => {
                return None;
            },
            Some((v, e)) => {
                out.push(v);
                at = e;
            },
        }
    }
}

// ---------------------------------------------------------------------------
// Names

/// The value of a hexadecimal digit.
pub open spec fn nibble(b: u8) -> Option<u8> {
    if is_digit(b) {
        Some((b - 0x30) as u8)
    } else if 0x41 <= b <= 0x46 {
        Some((b - 0x37) as u8)
    } else if 0x61 <= b <= 0x66 {
        Some((b - 0x57) as u8)
    } else {
        None
    }
}

fn read_nibble(b: u8) -> (r: Option<u8>)
    ensures
        r == nibble(b),
{
    if digit(b) {
        Some(b - 0x30)
    } else if 0x41 <= b && b <= 0x46 {
        Some(b - 0x37)
    } else if 0x61 <= b && b <= 0x66 {
        Some(b - 0x57)
    } else {
        None
    }
}

/// The name in `s[a..b]` behind what was read of it, its escapes undone.
pub open spec fn name_from(s: Seq<u8>, a: int, b: int, acc: Seq<u8>) -> Seq<u8>
    decreases b - a,
{
    if a < 0 || a >= b || b > s.len() {
        acc
    } else if s[a] == 0x23 && a + 2 < b && nibble(s[a + 1]) is Some && nibble(s[a + 2]) is Some {
        name_from(s, a + 3, b, acc.push((nibble(s[a + 1])->0 * 16 + nibble(s[a + 2])->0) as u8))
    } else {
        name_from(s, a + 1, b, acc.push(s[a]))
    }
}

/// The name whose bytes begin at `a`, behind the slash.
pub open spec fn name_at(s: Seq<u8>, a: int) -> Seq<u8> {
    name_from(s, a, parts_end(s, a), Seq::empty())
}

/// The name whose bytes begin at `a`, behind the slash.
pub fn read_name(s: &[u8], a: usize) -> (r: Vec<u8>)
    requires
        a <= s.len(),
    ensures
        r@ == name_at(s@, a as int),
{
    let b: usize = find_parts_end(s, a);
    let mut out: Vec<u8> = Vec::new();
    let mut i: usize = a;
    assert(out@ =~= Seq::empty());
    while i < b
        invariant
            a <= i <= b <= s.len(),
            b == parts_end(s@, a as int),
            name_at(s@, a as int) == name_from(s@, i as int, b as int, out@),
        decreases b - i,
    {
        if s[i] == 0x23 && b - i > 2 {
            match (read_nibble(s[i + 1]), read_nibble(s[i + 2])) {
                (Some(x), Some(y)) => {
                    out.push(x * 16 + y);
                    i += 3;
                },
                _ => {
                    out.push(s[i]);
                    i += 1;
                },
            }
        } else {
            out.push(s[i]);
            i += 1;
        }
    }
    out
}

/// The names of an array behind those that were read, from `i` on, where it holds nothing
/// else.
pub open spec fn names_from(s: Seq<u8>, i: int, acc: Seq<Seq<u8>>) -> Option<Seq<Seq<u8>>>
    decreases s.len() - i,
{
    let j = skip(s, i, false);
    if i < 0 || j < i || j >= s.len() {
        None
    } else if s[j] == 0x5d {
        Some(acc)
    } else if s[j] == 0x2f {
        let e = token_end(s, j);
        if e <= j || e > s.len() {
            None
        } else {
            names_from(s, e, acc.push(name_at(s, j + 1)))
        }
    } else {
        None
    }
}

/// The names at `i`: one name, or those of an array of names.
pub open spec fn names_at(s: Seq<u8>, i: int) -> Option<Seq<Seq<u8>>> {
    if 0 <= i < s.len() && s[i] == 0x2f {
        Some(seq![name_at(s, i + 1)])
    } else if 0 <= i < s.len() && s[i] == 0x5b {
        names_from(s, i + 1, Seq::empty())
    } else {
        None
    }
}

/// The names at `i`: one name, or those of an array of names.
pub fn read_names(s: &[u8], i: usize) -> (r: Option<Vec<Vec<u8>>>)
    requires
        i <= s.len(),
    ensures
        match names_at(s@, i as int) {
            Some(v) => r is Some && crate::util::blobs(r->0@) == v,
            None => r is None,
        },
{
    if i >= s.len() || (s[i] != 0x2f && s[i] != 0x5b) {
        return None;
    }
    let mut out: Vec<Vec<u8>> = Vec::new();
    assert(crate::util::blobs(out@) =~= Seq::empty());
    if s[i] == 0x2f {
        let name: Vec<u8> = read_name(s, i + 1);
        out.push(name);
        assert(crate::util::blobs(out@) =~= seq![name_at(s@, i + 1)]);
        return Some(out);
    }
    let mut at: usize = i + 1;
    loop
        invariant
            at <= s.len(),
            names_at(s@, i as int) == names_from(s@, at as int, crate::util::blobs(out@)),
        decreases s.len() - at,
    {
        let ghost before = crate::util::blobs(out@);
        let j: usize = skip_gaps(s, at);
        if j >= s.len() {
            return None;
        }
        if s[j] == 0x5d {
            return Some(out);
        }
        if s[j] != 0x2f {
            return None;
        }
        let name: Vec<u8> = read_name(s, j + 1);
        let ghost view = name@;
        out.push(name);
        assert(crate::util::blobs(out@) =~= before.push(view));
        at = find_token_end(s, j);
    }
}

/// The name stands in the bytes, behind a slash.
pub open spec fn mentions(s: Seq<u8>, name: Seq<u8>) -> bool {
    exists|i: int| 0 <= i < s.len() && #[trigger] s[i] == 0x2f && name_at(s, i + 1) == name
}

/// Whether the name stands in the bytes, behind a slash.
pub fn has_mention(s: &[u8], name: &[u8]) -> (r: bool)
    ensures
        r == mentions(s@, name@),
{
    let mut i: usize = 0;
    while i < s.len()
        invariant
            i <= s.len(),
            forall|k: int| 0 <= k < i && #[trigger] s@[k] == 0x2f ==> name_at(s@, k + 1) != name@,
        decreases s.len() - i,
    {
        if s[i] == 0x2f && crate::util::bytes_eq(&read_name(s, i + 1), name) {
            assert(s@[i as int] == 0x2f && name_at(s@, i + 1) == name@);
            return true;
        }
        i += 1;
    }
    false
}

// ---------------------------------------------------------------------------
// Dictionaries

/// An entry of a dictionary: where the bytes of its key begin, behind the slash, and where
/// its value begins.
pub struct Field {
    pub key: usize,
    pub value: usize,
}

/// The entries of a dictionary as a mathematical value.
pub open spec fn field_views(v: Seq<Field>) -> Seq<(int, int)> {
    Seq::new(v.len(), |i: int| (v[i].key as int, v[i].value as int))
}

/// The entries of the dictionary that is open at `i` with `d` brackets, behind those that
/// were read, and where it ends. `key` is the key whose value comes next.
pub open spec fn fields_from(s: Seq<u8>, i: int, d: int, key: Option<int>, acc: Seq<(int, int)>) -> Option<
    (Seq<(int, int)>, int),
>
    decreases s.len() - i,
{
    let j = skip(s, i, false);
    if i < 0 || j < i || j >= s.len() {
        None
    } else {
        let e = token_end(s, j);
        let kept = if d == 1 && key is Some {
            acc.push((key->0, j))
        } else {
            acc
        };
        if e <= j || e > s.len() {
            None
        } else if opens_at(s, j) {
            if d >= MAX_NESTING {
                None
            } else {
                fields_from(s, e, d + 1, None, kept)
            }
        } else if closes_at(s, j) {
            if d > 1 {
                fields_from(s, e, d - 1, None, acc)
            } else if s[j] == 0x3e {
                Some((acc, e))
            } else {
                None
            }
        } else if !atom_at(s, j) {
            None
        } else if d == 1 && key is None && s[j] == 0x2f {
            fields_from(s, e, d, Some(j + 1), acc)
        } else {
            fields_from(s, e, d, None, kept)
        }
    }
}

/// The entries of the dictionary at `i`, and where it ends.
pub open spec fn fields_at(s: Seq<u8>, i: int) -> Option<(Seq<(int, int)>, int)> {
    if twice_at(s, i, 0x3c) {
        fields_from(s, i + 2, 1, None, Seq::empty())
    } else {
        None
    }
}

/// The places of a dictionary's entries lie in the bytes.
pub open spec fn fields_inside(f: Seq<(int, int)>, n: int) -> bool {
    forall|k: int| 0 <= k < f.len() ==> 0 <= (#[trigger] f[k]).0 <= n && 0 <= f[k].1 < n
}

/// The entries of the dictionary at `i`, and where it ends.
pub fn read_fields(s: &[u8], i: usize) -> (r: Option<(Vec<Field>, usize)>)
    requires
        i <= s.len(),
    ensures
        match fields_at(s@, i as int) {
            Some((f, e)) => r matches Some((v, x)) && field_views(v@) == f && x == e && i < x <= s.len() && fields_inside(
                f,
                s@.len() as int,
            ),
            None => r is None,
        },
{
    if i >= s.len() || !stands_twice(s, i, 0x3c) {
        return None;
    }
    let mut out: Vec<Field> = Vec::new();
    let mut at: usize = i + 2;
    let mut d: usize = 1;
    let mut key: Option<usize> = None;
    assert(field_views(out@) =~= Seq::empty());
    loop
        invariant
            i < at <= s.len(),
            1 <= d <= MAX_NESTING,
            key matches Some(k) ==> k <= s.len(),
            fields_inside(field_views(out@), s@.len() as int),
            fields_at(s@, i as int) == fields_from(
                s@,
                at as int,
                d as int,
                match key {
                    Some(k) => Some(k as int),
                    None => None,
                },
                field_views(out@),
            ),
        decreases s.len() - at,
    {
        let ghost before = field_views(out@);
        let j: usize = skip_gaps(s, at);
        if j >= s.len() {
            return None;
        }
        let e: usize = find_token_end(s, j);
        if opens(s, j) {
            if d >= MAX_NESTING {
                return None;
            }
            if d == 1 {
                if let Some(k) = key {
                    out.push(Field { key: k, value: j });
                    assert(field_views(out@) =~= before.push((k as int, j as int)));
                }
            }
            d += 1;
            key = None;
        } else if closes(s, j) {
            if d > 1 {
                d -= 1;
                key = None;
            } else if s[j] == 0x3e {
                return Some((out, e));
            } else {
                return None;
            }
        } else if !is_atom(s, j) {
            return None;
        } else if d == 1 && key.is_none() && s[j] == 0x2f {
            key = Some(j + 1);
        } else {
            if d == 1 {
                if let Some(k) = key {
                    out.push(Field { key: k, value: j });
                    assert(field_views(out@) =~= before.push((k as int, j as int)));
                }
            }
            key = None;
        }
        at = e;
    }
}

/// Where the value of the last of the first `n` entries with the key begins.
pub open spec fn value_among(s: Seq<u8>, f: Seq<(int, int)>, name: Seq<u8>, n: int) -> Option<int>
    decreases n,
{
    if n <= 0 || n > f.len() {
        None
    } else if name_at(s, f[n - 1].0) == name {
        Some(f[n - 1].1)
    } else {
        value_among(s, f, name, n - 1)
    }
}

/// Where the value under a key begins: that of the last entry with the key.
pub open spec fn value_of(s: Seq<u8>, f: Seq<(int, int)>, name: Seq<u8>) -> Option<int> {
    value_among(s, f, name, f.len() as int)
}

/// Where the value under a key begins.
pub fn find_value(s: &[u8], f: &Vec<Field>, name: &str) -> (r: Option<usize>)
    requires
        fields_inside(field_views(f@), s@.len() as int),
    ensures
        match value_of(s@, field_views(f@), crate::util::lit(name)) {
            Some(v) => r is Some && r->0 == v && r->0 < s.len(),
            None => r is None,
        },
{
    let mut n: usize = f.len();
    while n > 0
        invariant
            n <= f.len(),
            fields_inside(field_views(f@), s@.len() as int),
            value_of(s@, field_views(f@), crate::util::lit(name)) == value_among(
                s@,
                field_views(f@),
                crate::util::lit(name),
                n as int,
            ),
        decreases n,
    {
        assert(field_views(f@)[n - 1] == (f@[n - 1].key as int, f@[n - 1].value as int));
        if crate::util::bytes_eq(&read_name(s, f[n - 1].key), raw(name)) {
            return Some(f[n - 1].value);
        }
        n -= 1;
    }
    None
}

} // verus!
