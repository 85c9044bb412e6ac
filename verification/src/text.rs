//! Text helpers: white space, splitting, numbers, and the bridge between bytes
//! and characters.
use vstd::prelude::*;
use vstd::utf8::{decode_utf8, valid_utf8};

verus! {

// ---------------------------------------------------------------------------
// Between bytes and characters

/// The bytes as text, where they are valid UTF-8: `core::str::from_utf8`.
#[verifier::external_body]
pub(crate) fn from_utf8(bytes: &[u8]) -> (r: Option<&str>)
    ensures
        match r {
            Some(s) => valid_utf8(bytes@) && s@ == decode_utf8(bytes@),
            None => !valid_utf8(bytes@),
        },
{
    core::str::from_utf8(bytes).ok()
}

/// The text of bytes in which what is no valid UTF-8 was replaced by the
/// replacement character.
pub uninterp spec fn lossy(bytes: Seq<u8>) -> Seq<char>;

/// The bytes as text, invalid sequences replaced: `String::from_utf8_lossy`. Valid
/// UTF-8 comes out as it is.
#[verifier::external_body]
fn replace_invalid(bytes: &[u8]) -> (r: String)
    ensures
        valid_utf8(bytes@) ==> r@ == decode_utf8(bytes@),
        !valid_utf8(bytes@) ==> r@ == lossy(bytes@),
{
    String::from_utf8_lossy(bytes).into_owned()
}

/// The bytes as text; what is no valid UTF-8 is replaced.
pub open spec fn lossy_text(bytes: Seq<u8>) -> Seq<char> {
    if valid_utf8(bytes) {
        decode_utf8(bytes)
    } else {
        lossy(bytes)
    }
}

/// The bytes as text; what is no valid UTF-8 is replaced.
pub fn from_utf8_lossy(bytes: &[u8]) -> (r: String)
    ensures
        r@ == lossy_text(bytes@),
{
    replace_invalid(bytes)
}

/// The text in lower case.
pub uninterp spec fn lowercase(s: Seq<char>) -> Seq<char>;

/// The text in lower case by Unicode's rules: `str::to_lowercase`.
#[verifier::external_body]
pub(crate) fn to_lowercase(s: &str) -> (r: String)
    ensures
        r@ == lowercase(s@),
{
    s.to_lowercase()
}

/// The text that consists of the given characters: `String` collected from an
/// iterator of characters.
#[verifier::external_body]
pub(crate) fn string_of(chars: &[char]) -> (r: String)
    ensures
        r@ == chars@,
{
    String::from_iter(chars)
}

/// The characters of a text.
pub fn chars_of(s: &str) -> (r: Vec<char>)
    ensures
        r@ == s@,
{
    let mut out: Vec<char> = Vec::new();
    for c in it: s.chars()
        invariant
            out@ == it.seq().take(it.index@),
            it.seq() == s@,
    {
        out.push(c);
    }
    out
}

// ---------------------------------------------------------------------------
// White space

/// A character with Unicode's `White_Space` property.
pub open spec fn is_white(c: char) -> bool {
    let u = c as u32;
    0x09 <= u <= 0x0d || u == 0x20 || u == 0x85 || u == 0xa0 || u == 0x1680 || 0x2000 <= u <= 0x200a || u == 0x2028
        || u == 0x2029 || u == 0x202f || u == 0x205f || u == 0x3000
}

/// Tests for white space.
pub fn white(c: char) -> (r: bool)
    ensures
        r == is_white(c),
{
    let u: u32 = c as u32;
    (0x09 <= u && u <= 0x0d) || u == 0x20 || u == 0x85 || u == 0xa0 || u == 0x1680 || (0x2000 <= u && u <= 0x200a) || u
        == 0x2028 || u == 0x2029 || u == 0x202f || u == 0x205f || u == 0x3000
}

/// The text without the white space at its end.
pub open spec fn trim_end(s: Seq<char>) -> Seq<char>
    decreases s.len(),
{
    if s.len() > 0 && is_white(s.last()) {
        trim_end(s.drop_last())
    } else {
        s
    }
}

/// The first index at or after `i` that holds no white space.
pub open spec fn skip_white(s: Seq<char>, i: int) -> int
    decreases s.len() - i,
{
    if 0 <= i < s.len() && is_white(s[i]) {
        skip_white(s, i + 1)
    } else {
        i
    }
}

/// The first index at or after `i` that holds white space, or the end.
pub open spec fn word_end(s: Seq<char>, i: int) -> int
    decreases s.len() - i,
{
    if 0 <= i < s.len() && !is_white(s[i]) {
        word_end(s, i + 1)
    } else {
        i
    }
}

/// The text without the white space at its two ends.
pub open spec fn trim(s: Seq<char>) -> Seq<char> {
    trim_end(s.skip(skip_white(s, 0)))
}

/// The words of the text from `i` on: its parts between white space.
pub open spec fn words_from(s: Seq<char>, i: int) -> Seq<Seq<char>>
    decreases s.len() - i,
    via words_from_ends
{
    let a = skip_white(s, i);
    if 0 <= i <= a < s.len() {
        seq![s.subrange(a, word_end(s, a))] + words_from(s, word_end(s, a))
    } else {
        Seq::empty()
    }
}

#[via_fn]
proof fn words_from_ends(s: Seq<char>, i: int) {
    if 0 <= i <= s.len() {
        lemma_skip_white(s, i);
        if skip_white(s, i) < s.len() {
            lemma_word_end(s, skip_white(s, i));
        }
    }
}

pub proof fn lemma_skip_white(s: Seq<char>, i: int)
    requires
        0 <= i <= s.len(),
    ensures
        i <= skip_white(s, i) <= s.len(),
        skip_white(s, i) < s.len() ==> !is_white(s[skip_white(s, i)]),
    decreases s.len() - i,
{
    if i < s.len() && is_white(s[i]) {
        lemma_skip_white(s, i + 1);
    }
}

pub proof fn lemma_word_end(s: Seq<char>, i: int)
    requires
        0 <= i <= s.len(),
    ensures
        i <= word_end(s, i) <= s.len(),
        i < s.len() && !is_white(s[i]) ==> i < word_end(s, i),
    decreases s.len() - i,
{
    if i < s.len() && !is_white(s[i]) {
        lemma_word_end(s, i + 1);
    }
}

/// The views of a list of texts.
pub open spec fn texts(v: Seq<Vec<char>>) -> Seq<Seq<char>> {
    Seq::new(v.len(), |i: int| v[i]@)
}

/// A copy of a part of a text.
pub fn part(s: &[char], a: usize, b: usize) -> (r: Vec<char>)
    requires
        a <= b <= s.len(),
    ensures
        r@ == s@.subrange(a as int, b as int),
{
    let mut r: Vec<char> = Vec::new();
    let mut i: usize = a;
    while i < b
        invariant
            a <= i <= b <= s.len(),
            r@ == s@.subrange(a as int, i as int),
        decreases b - i,
    {
        r.push(s[i]);
        i += 1;
        assert(r@ =~= s@.subrange(a as int, i as int));
    }
    r
}

/// The words of a text.
pub fn split_words(s: &[char]) -> (r: Vec<Vec<char>>)
    ensures
        texts(r@) == words_from(s@, 0),
{
    let mut out: Vec<Vec<char>> = Vec::new();
    let mut i: usize = 0;
    assert(texts(out@) =~= Seq::empty());
    loop
        invariant
            i <= s.len(),
            texts(out@) + words_from(s@, i as int) =~= words_from(s@, 0),
        decreases s.len() - i,
    {
        let ghost start = i as int;
        let mut a: usize = i;
        while a < s.len() && white(s[a])
            invariant
                start <= a <= s.len(),
                skip_white(s@, start) == skip_white(s@, a as int),
            decreases s.len() - a,
        {
            a += 1;
        }
        if a >= s.len() {
            assert(words_from(s@, start) =~= Seq::empty());
            return out;
        }
        let mut b: usize = a;
        while b < s.len() && !white(s[b])
            invariant
                a <= b <= s.len(),
                word_end(s@, a as int) == word_end(s@, b as int),
            decreases s.len() - b,
        {
            b += 1;
        }
        proof {
            lemma_word_end(s@, a as int);
        }
        let ghost before = texts(out@);
        out.push(part(s, a, b));
        proof {
            let w = s@.subrange(a as int, b as int);
            assert(texts(out@) =~= before.push(w));
            assert(words_from(s@, start) == seq![w] + words_from(s@, b as int));
            assert(before.push(w) + words_from(s@, b as int) =~= before + (seq![w] + words_from(s@, b as int)));
        }
        i = b;
    }
}

/// The length of a text without the white space at its end.
pub fn trimmed_len(s: &[char]) -> (n: usize)
    ensures
        n <= s.len(),
        s@.take(n as int) == trim_end(s@),
{
    let mut n: usize = s.len();
    assert(s@.take(n as int) =~= s@);
    while n > 0 && white(s[n - 1])
        invariant
            n <= s.len(),
            trim_end(s@.take(n as int)) == trim_end(s@),
        decreases n,
    {
        assert(s@.take(n as int).drop_last() =~= s@.take(n - 1));
        n -= 1;
    }
    n
}

/// The text without the white space at its two ends.
pub fn trim_chars(s: &[char]) -> (r: Vec<char>)
    ensures
        r@ == trim(s@),
{
    let mut a: usize = 0;
    while a < s.len() && white(s[a])
        invariant
            a <= s.len(),
            skip_white(s@, 0) == skip_white(s@, a as int),
        decreases s.len() - a,
    {
        a += 1;
    }
    let v: Vec<char> = part(s, a, s.len());
    assert(v@ =~= s@.skip(a as int));
    let n: usize = trimmed_len(&v);
    let r: Vec<char> = part(&v, 0, n);
    assert(r@ =~= v@.take(n as int));
    r
}

// ---------------------------------------------------------------------------
// Splitting at a character

/// The first index at or after `i` that holds `c`, or the end.
pub open spec fn next_char(s: Seq<char>, c: char, i: int) -> int
    decreases s.len() - i,
{
    if 0 <= i < s.len() && s[i] != c {
        next_char(s, c, i + 1)
    } else {
        i
    }
}

/// The first index at or after `i` that holds `c`, or the end.
pub fn find_char(s: &[char], c: char, i: usize) -> (r: usize)
    requires
        i <= s.len(),
    ensures
        r == next_char(s@, c, i as int),
        i <= r <= s.len(),
        r < s.len() ==> s@[r as int] == c,
{
    let mut k: usize = i;
    while k < s.len() && s[k] != c
        invariant
            i <= k <= s.len(),
            next_char(s@, c, i as int) == next_char(s@, c, k as int),
        decreases s.len() - k,
    {
        k += 1;
    }
    k
}

/// The parts of the text from `i` on between occurrences of `c`.
pub open spec fn split_from(s: Seq<char>, c: char, i: int) -> Seq<Seq<char>>
    decreases s.len() - i,
    via split_from_ends
{
    let e = next_char(s, c, i);
    if 0 <= i <= e < s.len() {
        seq![s.subrange(i, e)] + split_from(s, c, e + 1)
    } else {
        seq![s.subrange(i, s.len() as int)]
    }
}

#[via_fn]
proof fn split_from_ends(s: Seq<char>, c: char, i: int) {
}

/// The parts of a text between occurrences of `c`.
pub fn split_at_char(s: &[char], c: char) -> (r: Vec<Vec<char>>)
    ensures
        texts(r@) == split_from(s@, c, 0),
{
    let mut out: Vec<Vec<char>> = Vec::new();
    let mut i: usize = 0;
    assert(texts(out@) =~= Seq::empty());
    loop
        invariant
            i <= s.len(),
            texts(out@) + split_from(s@, c, i as int) =~= split_from(s@, c, 0),
        decreases s.len() - i,
    {
        let e: usize = find_char(s, c, i);
        let ghost before = texts(out@);
        let ghost w = s@.subrange(i as int, e as int);
        out.push(part(s, i, e));
        assert(texts(out@) =~= before.push(w));
        if e >= s.len() {
            assert(split_from(s@, c, i as int) =~= seq![w]);
            assert(before + seq![w] =~= before.push(w));
            return out;
        }
        proof {
            assert(split_from(s@, c, i as int) == seq![w] + split_from(s@, c, e + 1));
            assert(before.push(w) + split_from(s@, c, e + 1) =~= before + (seq![w] + split_from(s@, c, e + 1)));
        }
        i = e + 1;
    }
}

/// `t` stands somewhere in `s`.
pub open spec fn contains_text(s: Seq<char>, t: Seq<char>) -> bool {
    exists|i: int| #[trigger] text_at(s, t, i)
}

/// `t` stands in `s` at index `i`.
pub open spec fn text_at(s: Seq<char>, t: Seq<char>, i: int) -> bool {
    0 <= i && i + t.len() <= s.len() && s.subrange(i, i + t.len()) == t
}

/// Tests whether `t` stands in `s` at index `i`.
pub fn is_text_at(s: &[char], t: &[char], i: usize) -> (r: bool)
    ensures
        r == text_at(s@, t@, i as int),
{
    if t.len() > s.len() || i > s.len() - t.len() {
        return false;
    }
    let mut k: usize = 0;
    while k < t.len()
        invariant
            k <= t.len(),
            i + t.len() <= s.len(),
            forall|j: int| 0 <= j < k ==> s@[i + j] == t@[j],
        decreases t.len() - k,
    {
        if s[i + k] != t[k] {
            assert(s@.subrange(i as int, i + t@.len())[k as int] != t@[k as int]);
            return false;
        }
        k += 1;
    }
    assert(s@.subrange(i as int, i + t@.len()) =~= t@);
    true
}

/// Tests whether `t` stands somewhere in `s`.
pub fn has_text(s: &[char], t: &[char]) -> (r: bool)
    ensures
        r == contains_text(s@, t@),
{
    if t.len() > s.len() {
        return false;
    }
    let last: usize = s.len() - t.len();
    let mut i: usize = 0;
    while i <= last
        invariant
            last + t.len() == s.len(),
            i <= last + 1,
            forall|j: int| 0 <= j < i ==> !text_at(s@, t@, j),
        decreases last + 1 - i,
    {
        if is_text_at(s, t, i) {
            return true;
        }
        if i == last {
            assert forall|j: int| !text_at(s@, t@, j) by {
                if 0 <= j <= last {
                    assert(!text_at(s@, t@, j));
                }
            }
            return false;
        }
        i += 1;
    }
    false
}

// ---------------------------------------------------------------------------
// Numbers

/// The value of a digit in the given radix, ten or sixteen.
pub open spec fn digit_in(c: char, radix: int) -> Option<int> {
    if '0' <= c <= '9' {
        Some(c as u32 - 0x30)
    } else if radix == 16 && 'a' <= c <= 'f' {
        Some(c as u32 - 0x61 + 10)
    } else if radix == 16 && 'A' <= c <= 'F' {
        Some(c as u32 - 0x41 + 10)
    } else {
        None
    }
}

/// Why a text is not taken as a number.
pub open spec fn invalid_digit() -> Seq<char> {
    "invalid digit found in string"@
}

/// Why a text is not taken as a number.
pub open spec fn too_large() -> Seq<char> {
    "number too large to fit in target type"@
}

/// The number that the digits from `i` on give behind `acc`, up to `max`: the
/// first digit that is none, or that brings the number above `max`, decides.
pub open spec fn digits_from(s: Seq<char>, i: int, acc: nat, radix: nat, max: nat) -> Result<nat, Seq<char>>
    decreases s.len() - i,
{
    if i < 0 || i >= s.len() {
        Ok(acc)
    } else {
        match digit_in(s[i], radix as int) {
            None => Err(invalid_digit()),
            Some(d) => if acc * radix + d > max {
                Err(too_large())
            } else {
                digits_from(s, i + 1, (acc * radix + d) as nat, radix, max)
            },
        }
    }
}

/// An unsigned number with an optional plus sign.
pub open spec fn unsigned(s: Seq<char>, radix: nat, max: nat) -> Result<nat, Seq<char>> {
    if s.len() == 0 {
        Err("cannot parse integer from empty string"@)
    } else if s.len() == 1 && (s[0] == '+' || s[0] == '-') {
        Err(invalid_digit())
    } else if s[0] == '+' {
        digits_from(s, 1, 0, radix, max)
    } else {
        digits_from(s, 0, 0, radix, max)
    }
}

/// A signed 64-bit decimal number with an optional sign.
pub open spec fn signed(s: Seq<char>) -> Option<int> {
    if s.len() == 0 || (s.len() == 1 && (s[0] == '+' || s[0] == '-')) {
        None
    } else if s[0] == '-' {
        match digits_from(s, 1, 0, 10, 0x8000_0000_0000_0000) {
            Ok(n) => Some(-(n as int)),
            Err(_) => None,
        }
    } else {
        match digits_from(s, if s[0] == '+' { 1 } else { 0 }, 0, 10, i64::MAX as nat) {
            Ok(n) => Some(n as int),
            Err(_) => None,
        }
    }
}

fn digit_value(c: char, radix: u64) -> (r: Option<u64>)
    requires
        radix == 10 || radix == 16,
    ensures
        match digit_in(c, radix as int) {
            Some(d) => r is Some && r->0 == d && d < radix,
            None => r is None,
        },
{
    let u: u32 = c as u32;
    if 0x30 <= u && u <= 0x39 {
        Some((u - 0x30) as u64)
    } else if radix == 16 && 0x61 <= u && u <= 0x66 {
        Some((u - 0x61 + 10) as u64)
    } else if radix == 16 && 0x41 <= u && u <= 0x46 {
        Some((u - 0x41 + 10) as u64)
    } else {
        None
    }
}

fn parse_digits(s: &[char], from: usize, radix: u64, max: u64) -> (r: Result<u64, &'static str>)
    requires
        from <= s.len(),
        radix == 10 || radix == 16,
    ensures
        match digits_from(s@, from as int, 0, radix as nat, max as nat) {
            Ok(n) => r is Ok && r->Ok_0 == n && n <= max,
            Err(t) => r is Err && r->Err_0@ == t,
        },
{
    let mut acc: u64 = 0;
    let mut i: usize = from;
    while i < s.len()
        invariant
            i <= s.len(),
            acc <= max,
            radix == 10 || radix == 16,
            digits_from(s@, from as int, 0, radix as nat, max as nat) == digits_from(
                s@,
                i as int,
                acc as nat,
                radix as nat,
                max as nat,
            ),
        decreases s.len() - i,
    {
        match digit_value(s[i], radix) {
            None => {
                return Err("invalid digit found in string");
            },
            Some(d) => {
                let next: u128 = (acc as u128) * (radix as u128) + d as u128;
                if next > max as u128 {
                    return Err("number too large to fit in target type");
                }
                acc = next as u64;
            },
        }
        i += 1;
    }
    Ok(acc)
}

/// Reads an unsigned number of radix ten or sixteen, at most `max`.
pub fn parse_unsigned(s: &[char], radix: u64, max: u64) -> (r: Result<u64, &'static str>)
    requires
        radix == 10 || radix == 16,
    ensures
        match unsigned(s@, radix as nat, max as nat) {
            Ok(n) => r is Ok && r->Ok_0 == n && n <= max,
            Err(t) => r is Err && r->Err_0@ == t,
        },
{
    if s.len() == 0 {
        Err("cannot parse integer from empty string")
    } else if s.len() == 1 && (s[0] == '+' || s[0] == '-') {
        Err("invalid digit found in string")
    } else if s[0] == '+' {
        parse_digits(s, 1, radix, max)
    } else {
        parse_digits(s, 0, radix, max)
    }
}

/// Reads a signed 64-bit decimal number.
pub fn parse_signed(s: &[char]) -> (r: Option<i64>)
    ensures
        match signed(s@) {
            Some(n) => r is Some && r->0 == n,
            None => r is None,
        },
{
    if s.len() == 0 || (s.len() == 1 && (s[0] == '+' || s[0] == '-')) {
        return None;
    }
    if s[0] == '-' {
        match parse_digits(s, 1, 10, 0x8000_0000_0000_0000) {
            Ok(n) => Some(if n == 0x8000_0000_0000_0000 { i64::MIN } else { -(n as i64) }),
            Err(_) => None,
        }
    } else {
        let from: usize = if s[0] == '+' { 1 } else { 0 };
        match parse_digits(s, from, 10, i64::MAX as u64) {
            Ok(n) => Some(n as i64),
            Err(_) => None,
        }
    }
}

// ---------------------------------------------------------------------------
// Dotted notation

/// How long a text in dotted notation may be.
pub const MAX_NOTATION: usize = 1000;

/// Whether the numbers in dotted notation from index `i` on are within 32 bits, and their
/// texts not too long. `fresh` tells that nothing but such a text stands before `i`, back
/// to the beginning, a comma or a plus; `arc` is the value of the digits just before `i`,
/// and `n` the length of that text so far.
pub open spec fn notation_fits(s: Seq<char>, i: int, fresh: bool, arc: nat, n: nat) -> bool
    decreases s.len() - i,
{
    if i < 0 || i >= s.len() {
        true
    } else if s[i] == ',' || s[i] == '+' {
        notation_fits(s, i + 1, true, 0, 0)
    } else if !fresh {
        notation_fits(s, i + 1, false, 0, 0)
    } else if n >= MAX_NOTATION {
        false
    } else if s[i] == '.' {
        notation_fits(s, i + 1, true, 0, n + 1)
    } else if '0' <= s[i] && s[i] <= '9' {
        arc * 10 + (s[i] as nat - '0' as nat) <= u32::MAX && notation_fits(
            s,
            i + 1,
            true,
            (arc * 10 + (s[i] as nat - '0' as nat)) as nat,
            n + 1,
        )
    } else {
        notation_fits(s, i + 1, false, 0, 0)
    }
}

/// A text whose object identifiers in dotted notation can be read: as a whole, or in the
/// parts that commas and pluses make.
pub open spec fn arcs_fit(s: Seq<char>) -> bool {
    notation_fits(s, 0, true, 0, 0)
}

/// Whether the object identifiers in dotted notation in a text can be read.
pub fn has_fitting_arcs(text: &str) -> (r: bool)
    ensures
        r == arcs_fit(text@),
{
    let s: Vec<char> = chars_of(text);
    let mut i: usize = 0;
    let mut fresh: bool = true;
    let mut arc: u64 = 0;
    let mut n: usize = 0;
    while i < s.len()
        invariant
            i <= s.len(),
            s@ == text@,
            arc <= u32::MAX,
            n <= MAX_NOTATION,
            arcs_fit(text@) == notation_fits(s@, i as int, fresh, arc as nat, n as nat),
        decreases s.len() - i,
    {
        let c: char = s[i];
        i += 1;
        if c == ',' || c == '+' {
            fresh = true;
            arc = 0;
            n = 0;
        } else if !fresh {
            arc = 0;
            n = 0;
        } else if n >= MAX_NOTATION {
            return false;
        } else if c == '.' {
            arc = 0;
            n += 1;
        } else if '0' <= c && c <= '9' {
            arc = arc * 10 + (c as u64 - '0' as u64);
            if arc > 0xffff_ffff {
                return false;
            }
            n += 1;
        } else {
            fresh = false;
            arc = 0;
            n = 0;
        }
    }
    true
}

} // verus!
