//! Byte-string helpers: searching, hexadecimal, decimal and DER length headers.
use vstd::prelude::*;
use vstd::utf8::{encode_utf8, is_ascii_chars, is_ascii_chars_encode_utf8};

verus! {

/// The UTF-8 bytes of a text.
#[verifier::opaque]
pub open spec fn utf8(s: Seq<char>) -> Seq<u8> {
    encode_utf8(s)
}

/// The bytes of a string literal.
pub open spec fn lit(s: &str) -> Seq<u8> {
    utf8(s@)
}

/// The bytes of a literal of ASCII characters.
pub proof fn lemma_lit(s: &str)
    requires
        is_ascii_chars(s@),
    ensures
        lit(s).len() == s@.len(),
        forall|i: int| 0 <= i < s@.len() ==> #[trigger] lit(s)[i] == s@[i] as u8,
{
    reveal(utf8);
    is_ascii_chars_encode_utf8(s@);
}

/// Concatenation may be bracketed either way.
pub broadcast proof fn concat_assoc<T>(a: Seq<T>, b: Seq<T>, c: Seq<T>)
    ensures
        #[trigger] (a + (b + c)) == (a + b) + c,
{
    assert(a + (b + c) =~= (a + b) + c);
}

/// The bytes of `s`.
pub fn raw(s: &str) -> (r: &[u8])
    ensures
        r@ == lit(s),
{
    reveal(utf8);
    s.as_bytes()
}

/// Appends the UTF-8 bytes of `s` to `out`.
pub fn push_str(out: &mut Vec<u8>, s: &str)
    ensures
        final(out)@ == old(out)@ + lit(s),
{
    out.extend_from_slice(raw(s));
}

/// A fresh vector with the bytes of `s`.
pub fn bytes_of(s: &str) -> (r: Vec<u8>)
    ensures
        r@ == lit(s),
{
    let mut r: Vec<u8> = Vec::new();
    r.extend_from_slice(raw(s));
    assert(r@ =~= lit(s));
    r
}

/// A fresh vector with a copy of `s`.
pub fn to_vec(s: &[u8]) -> (r: Vec<u8>)
    ensures
        r@ == s@,
{
    let mut r: Vec<u8> = Vec::new();
    r.extend_from_slice(s);
    assert(r@ =~= s@);
    r
}

/// Byte-wise equality of two slices.
pub fn bytes_eq(a: &[u8], b: &[u8]) -> (r: bool)
    ensures
        r == (a@ == b@),
{
    if a.len() != b.len() {
        return false;
    }
    let mut i: usize = 0;
    while i < a.len()
        invariant
            a.len() == b.len(),
            i <= a.len(),
            forall|k: int| 0 <= k < i ==> a@[k] == b@[k],
        decreases a.len() - i,
    {
        if a[i] != b[i] {
            return false;
        }
        i += 1;
    }
    assert(a@ =~= b@);
    true
}

/// The views of a list of byte strings.
pub open spec fn blobs(v: Seq<Vec<u8>>) -> Seq<Seq<u8>> {
    Seq::new(v.len(), |i: int| v[i]@)
}

/// Tests whether a byte string is in a list.
pub fn contains_blob(v: &Vec<Vec<u8>>, x: &[u8]) -> (r: bool)
    ensures
        r == blobs(v@).contains(x@),
{
    let mut i: usize = 0;
    while i < v.len()
        invariant
            i <= v.len(),
            forall|k: int| 0 <= k < i ==> (#[trigger] blobs(v@)[k]) != x@,
        decreases v.len() - i,
    {
        if bytes_eq(&v[i], x) {
            assert(blobs(v@)[i as int] == x@);
            return true;
        }
        i += 1;
    }
    false
}

/// A copy of a list of byte strings.
pub fn copy_blobs(v: &Vec<Vec<u8>>) -> (r: Vec<Vec<u8>>)
    ensures
        blobs(r@) == blobs(v@),
{
    let mut out: Vec<Vec<u8>> = Vec::new();
    let mut i: usize = 0;
    while i < v.len()
        invariant
            i <= v.len(),
            out@.len() == i,
            forall|k: int| 0 <= k < i ==> (#[trigger] out@[k])@ == v@[k]@,
        decreases v.len() - i,
    {
        out.push(to_vec(&v[i]));
        i += 1;
    }
    assert(blobs(out@) =~= blobs(v@));
    out
}

/// The elements of a list without those that came before.
pub open spec fn distinct<T>(s: Seq<T>) -> Seq<T>
    decreases s.len(),
{
    if s.len() == 0 {
        Seq::empty()
    } else {
        let d = distinct(s.drop_last());
        if d.contains(s.last()) {
            d
        } else {
            d.push(s.last())
        }
    }
}

/// `distinct` keeps exactly the elements of the list, each once.
pub proof fn law_distinct<T>(s: Seq<T>)
    ensures
        forall|x: T| distinct(s).contains(x) <==> s.contains(x),
        distinct(s).no_duplicates(),
    decreases s.len(),
{
    if s.len() > 0 {
        let t = s.drop_last();
        let d = distinct(t);
        law_distinct(t);
        assert forall|x: T| distinct(s).contains(x) <==> s.contains(x) by {
            if s.contains(x) {
                let i = choose|i: int| 0 <= i < s.len() && s[i] == x;
                if i < t.len() {
                    assert(t[i] == x);
                    assert(t.contains(x));
                    assert(d.contains(x));
                    let k = choose|k: int| 0 <= k < d.len() && d[k] == x;
                    assert(d.push(s.last())[k] == x);
                } else {
                    assert(d.push(s.last())[d.len() as int] == x);
                }
            }
            if distinct(s).contains(x) {
                let i = choose|i: int| 0 <= i < distinct(s).len() && distinct(s)[i] == x;
                if i < d.len() {
                    assert(d[i] == x);
                    assert(d.contains(x));
                    assert(t.contains(x));
                    let k = choose|k: int| 0 <= k < t.len() && t[k] == x;
                    assert(s[k] == x);
                } else {
                    assert(s[s.len() - 1] == x);
                }
            }
        }
    }
}

/// The elements of a list of byte strings without those that came before.
pub fn distinct_blobs(v: &Vec<Vec<u8>>) -> (r: Vec<Vec<u8>>)
    ensures
        blobs(r@) == distinct(blobs(v@)),
{
    let mut out: Vec<Vec<u8>> = Vec::new();
    let mut i: usize = 0;
    assert(blobs(out@) =~= Seq::empty());
    while i < v.len()
        invariant
            i <= v.len(),
            blobs(out@) == distinct(blobs(v@).take(i as int)),
        decreases v.len() - i,
    {
        proof {
            let t = blobs(v@).take(i + 1);
            assert(t.drop_last() =~= blobs(v@).take(i as int));
            assert(t.last() == v@[i as int]@);
        }
        if !contains_blob(&out, &v[i]) {
            let ghost before = blobs(out@);
            out.push(to_vec(&v[i]));
            assert(blobs(out@) =~= before.push(v@[i as int]@));
        }
        i += 1;
    }
    assert(blobs(v@).take(i as int) =~= blobs(v@));
    out
}

// ---------------------------------------------------------------------------
// Searching

/// `needle` stands in `hay` at index `i`.
pub open spec fn occurs_at(hay: Seq<u8>, needle: Seq<u8>, i: int) -> bool {
    0 <= i && i + needle.len() <= hay.len() && hay.subrange(i, i + needle.len()) == needle
}

/// The first index at or after `from` at which `needle` stands in `hay`.
pub open spec fn first_from(hay: Seq<u8>, needle: Seq<u8>, from: int) -> Option<int>
    decreases hay.len() + 1 - from,
{
    if from < 0 || from + needle.len() > hay.len() {
        None
    } else if occurs_at(hay, needle, from) {
        Some(from)
    } else {
        first_from(hay, needle, from + 1)
    }
}

/// The last index at or before `upto` at which `needle` stands in `hay`.
pub open spec fn last_upto(hay: Seq<u8>, needle: Seq<u8>, upto: int) -> Option<int>
    decreases upto + 1,
{
    if upto < 0 {
        None
    } else if occurs_at(hay, needle, upto) {
        Some(upto)
    } else {
        last_upto(hay, needle, upto - 1)
    }
}

/// The last index at which `needle` stands in `hay`.
pub open spec fn last_in(hay: Seq<u8>, needle: Seq<u8>) -> Option<int> {
    last_upto(hay, needle, hay.len() - needle.len())
}

/// `first_from` is the least occurrence at or after `from`, and `None` exactly
/// when there is none.
pub proof fn lemma_first_from(hay: Seq<u8>, needle: Seq<u8>, from: int)
    requires
        0 <= from,
    ensures
        match first_from(hay, needle, from) {
            Some(i) => from <= i && occurs_at(hay, needle, i) && (forall|j: int|
                from <= j < i ==> !occurs_at(hay, needle, j)),
            None => forall|j: int| from <= j ==> !occurs_at(hay, needle, j),
        },
    decreases hay.len() + 1 - from,
{
    if from + needle.len() <= hay.len() && !occurs_at(hay, needle, from) {
        lemma_first_from(hay, needle, from + 1);
    }
}

/// An occurrence with none before it (from `from` on) is what `first_from` gives.
pub proof fn lemma_first_from_is(hay: Seq<u8>, needle: Seq<u8>, from: int, i: int)
    requires
        0 <= from <= i,
        occurs_at(hay, needle, i),
        forall|j: int| from <= j < i ==> !occurs_at(hay, needle, j),
    ensures
        first_from(hay, needle, from) == Some(i),
{
    lemma_first_from(hay, needle, from);
}

/// `last_upto` is the greatest occurrence at or before `upto`, and `None`
/// exactly when there is none.
pub proof fn lemma_last_upto(hay: Seq<u8>, needle: Seq<u8>, upto: int)
    ensures
        match last_upto(hay, needle, upto) {
            Some(i) => i <= upto && occurs_at(hay, needle, i) && (forall|j: int|
                i < j <= upto ==> !occurs_at(hay, needle, j)),
            None => forall|j: int| j <= upto ==> !occurs_at(hay, needle, j),
        },
    decreases upto + 1,
{
    if upto >= 0 && !occurs_at(hay, needle, upto) {
        lemma_last_upto(hay, needle, upto - 1);
    }
}

/// Tests whether `needle` stands in `hay` at `i`.
pub fn matches_at(hay: &[u8], needle: &[u8], i: usize) -> (r: bool)
    ensures
        r == occurs_at(hay@, needle@, i as int),
{
    if needle.len() > hay.len() || i > hay.len() - needle.len() {
        return false;
    }
    let mut k: usize = 0;
    while k < needle.len()
        invariant
            k <= needle.len(),
            i + needle.len() <= hay.len(),
            forall|j: int| 0 <= j < k ==> hay@[i + j] == needle@[j],
        decreases needle.len() - k,
    {
        if hay[i + k] != needle[k] {
            assert(hay@.subrange(i as int, i + needle@.len())[k as int] != needle@[k as int]);
            return false;
        }
        k += 1;
    }
    assert(hay@.subrange(i as int, i + needle@.len()) =~= needle@);
    true
}

/// Index of the first occurrence of `needle` in `hay` at or after `from`.
pub fn find_from(hay: &[u8], needle: &[u8], from: usize) -> (r: Option<usize>)
    ensures
        match first_from(hay@, needle@, from as int) {
            Some(i) => r is Some && r->0 == i && from <= i && i + needle@.len() <= hay@.len(),
            None => r is None,
        },
{
    if needle.len() > hay.len() {
        return None;
    }
    let last: usize = hay.len() - needle.len();
    let mut i: usize = from;
    while i <= last
        invariant
            last + needle.len() == hay.len(),
            from <= i,
            first_from(hay@, needle@, from as int) == first_from(hay@, needle@, i as int),
        decreases last + 1 - i,
    {
        if matches_at(hay, needle, i) {
            return Some(i);
        }
        if i == last {
            assert(first_from(hay@, needle@, last + 1) is None);
            return None;
        }
        i += 1;
    }
    None
}

/// Index of the first occurrence of `needle` in `hay`.
pub fn find_sub(hay: &[u8], needle: &[u8]) -> (r: Option<usize>)
    ensures
        match first_from(hay@, needle@, 0) {
            Some(i) => r is Some && r->0 == i && 0 <= i && i + needle@.len() <= hay@.len(),
            None => r is None,
        },
{
    find_from(hay, needle, 0)
}

/// Index of the last occurrence of `needle` in `hay`.
pub fn find_last(hay: &[u8], needle: &[u8]) -> (r: Option<usize>)
    ensures
        match last_in(hay@, needle@) {
            Some(i) => r is Some && r->0 == i && 0 <= i && i + needle@.len() <= hay@.len(),
            None => r is None,
        },
{
    if needle.len() > hay.len() {
        return None;
    }
    let mut i: usize = hay.len() - needle.len();
    loop
        invariant
            i + needle.len() <= hay.len(),
            last_in(hay@, needle@) == last_upto(hay@, needle@, i as int),
        decreases i,
    {
        if matches_at(hay, needle, i) {
            return Some(i);
        }
        if i == 0 {
            assert(last_upto(hay@, needle@, -1) is None);
            return None;
        }
        i -= 1;
    }
}

// ---------------------------------------------------------------------------
// Character classes

/// ASCII white space: space, tab, line feed, form feed and carriage return.
pub open spec fn is_space(b: u8) -> bool {
    b == 0x20 || b == 0x09 || b == 0x0a || b == 0x0c || b == 0x0d
}

/// An ASCII decimal digit.
pub open spec fn is_digit(b: u8) -> bool {
    0x30 <= b <= 0x39
}

/// The first index at or after `i` that holds no white space.
pub open spec fn skip_space(buf: Seq<u8>, i: int) -> int
    decreases buf.len() - i,
{
    if 0 <= i < buf.len() && is_space(buf[i]) {
        skip_space(buf, i + 1)
    } else {
        i
    }
}

/// The first index at or after `i` that holds no digit.
pub open spec fn skip_digits(buf: Seq<u8>, i: int) -> int
    decreases buf.len() - i,
{
    if 0 <= i < buf.len() && is_digit(buf[i]) {
        skip_digits(buf, i + 1)
    } else {
        i
    }
}

/// The bounds of `skip_space`.
pub proof fn lemma_skip_space(buf: Seq<u8>, i: int)
    requires
        0 <= i <= buf.len(),
    ensures
        i <= skip_space(buf, i) <= buf.len(),
        forall|k: int| i <= k < skip_space(buf, i) ==> is_space(buf[k]),
    decreases buf.len() - i,
{
    if i < buf.len() && is_space(buf[i]) {
        lemma_skip_space(buf, i + 1);
    }
}

/// The bounds of `skip_digits`.
pub proof fn lemma_skip_digits(buf: Seq<u8>, i: int)
    requires
        0 <= i <= buf.len(),
    ensures
        i <= skip_digits(buf, i) <= buf.len(),
        forall|k: int| i <= k < skip_digits(buf, i) ==> is_digit(buf[k]),
    decreases buf.len() - i,
{
    if i < buf.len() && is_digit(buf[i]) {
        lemma_skip_digits(buf, i + 1);
    }
}

/// Tests for ASCII white space.
pub fn space(b: u8) -> (r: bool)
    ensures
        r == is_space(b),
{
    b == 0x20 || b == 0x09 || b == 0x0a || b == 0x0c || b == 0x0d
}

/// Skips white space from `i` on.
pub fn skip_space_from(buf: &[u8], i: usize) -> (r: usize)
    requires
        i <= buf.len(),
    ensures
        r == skip_space(buf@, i as int),
        i <= r <= buf.len(),
{
    let mut k: usize = i;
    while k < buf.len() && space(buf[k])
        invariant
            i <= k <= buf.len(),
            skip_space(buf@, i as int) == skip_space(buf@, k as int),
        decreases buf.len() - k,
    {
        k += 1;
    }
    k
}

// ---------------------------------------------------------------------------
// Decimal numbers

/// The decimal digits of `n`, without leading zeros.
pub open spec fn dec(n: nat) -> Seq<u8>
    decreases n,
{
    if n < 10 {
        seq![(48 + n) as u8]
    } else {
        dec(n / 10).push((48 + n % 10) as u8)
    }
}

/// The decimal notation of an integer.
pub open spec fn dec_int(n: int) -> Seq<u8> {
    if n < 0 {
        seq![0x2du8] + dec((-n) as nat)
    } else {
        dec(n as nat)
    }
}

/// The decimal digits of `n`, with zeros before them up to `width` digits.
pub open spec fn dec_padded(n: nat, width: nat) -> Seq<u8> {
    Seq::new((if dec(n).len() < width { width - dec(n).len() } else { 0 }) as nat, |i: int| 0x30u8) + dec(n)
}

/// The value of a run of decimal digits.
pub open spec fn digits_value(s: Seq<u8>) -> nat
    decreases s.len(),
{
    if s.len() == 0 {
        0
    } else {
        digits_value(s.drop_last()) * 10 + (s.last() - 48) as nat
    }
}

/// `dec` gives digits only, at least one, and no leading zero but for zero itself.
pub proof fn lemma_dec(n: nat)
    ensures
        dec(n).len() >= 1,
        forall|i: int| 0 <= i < dec(n).len() ==> is_digit(#[trigger] dec(n)[i]),
        n > 0 ==> dec(n)[0] != 0x30,
        digits_value(dec(n)) == n,
    decreases n,
{
    if n < 10 {
        assert(dec(n).drop_last() =~= seq![]);
        reveal_with_fuel(digits_value, 2);
    } else {
        lemma_dec(n / 10);
        assert(dec(n).drop_last() =~= dec(n / 10));
    }
}

/// A number below a power of ten has at most that many digits.
pub proof fn lemma_dec_len(n: nat, w: nat)
    requires
        w >= 1,
        n < pow10(w),
    ensures
        dec(n).len() <= w,
    decreases n,
{
    if n >= 10 {
        assert(w >= 2) by {
            if w == 1 {
                assert(pow10(1) == 10 * pow10(0));
            }
        }
        assert(n / 10 < pow10((w - 1) as nat));
        lemma_dec_len(n / 10, (w - 1) as nat);
    }
}

/// Ten to the power `n`.
pub open spec fn pow10(n: nat) -> nat
    decreases n,
{
    if n == 0 {
        1
    } else {
        10 * pow10((n - 1) as nat)
    }
}

/// Appends the decimal digits of `n`.
pub fn push_dec(out: &mut Vec<u8>, n: u64)
    ensures
        final(out)@ == old(out)@ + dec(n as nat),
    decreases n,
{
    if n >= 10 {
        push_dec(out, n / 10);
    }
    out.push((48 + n % 10) as u8);
    assert(final(out)@ =~= old(out)@ + dec(n as nat));
}

/// Appends the decimal notation of `n`.
pub fn push_int(out: &mut Vec<u8>, n: i64)
    ensures
        final(out)@ == old(out)@ + dec_int(n as int),
{
    if n < 0 {
        out.push(0x2d);
        let m: u64 = if n == i64::MIN { 0x8000_0000_0000_0000u64 } else { (-n) as u64 };
        push_dec(out, m);
    } else {
        push_dec(out, n as u64);
    }
    assert(final(out)@ =~= old(out)@ + dec_int(n as int));
}

/// Appends the decimal digits of `n` padded with zeros to `width`.
pub fn push_dec_padded(out: &mut Vec<u8>, n: u64, width: usize)
    ensures
        final(out)@ == old(out)@ + dec_padded(n as nat, width as nat),
{
    let mut digits: Vec<u8> = Vec::new();
    push_dec(&mut digits, n);
    assert(digits@ =~= dec(n as nat));
    let ghost start = out@;
    let mut k: usize = digits.len();
    while k < width
        invariant
            digits.len() <= k,
            k <= width || k == digits.len(),
            out@ == start + Seq::new((k - digits@.len()) as nat, |i: int| 0x30u8),
        decreases width - k,
    {
        out.push(0x30);
        k += 1;
        assert(out@ =~= start + Seq::new((k - digits@.len()) as nat, |i: int| 0x30u8));
    }
    out.extend_from_slice(&digits);
    assert(out@ =~= start + dec_padded(n as nat, width as nat));
}

/// The decimal digits of `n` as text.
pub open spec fn dec_text(n: nat) -> Seq<char>
    decreases n,
{
    if n < 10 {
        digit_text(n)
    } else {
        dec_text(n / 10) + digit_text(n % 10)
    }
}

/// One decimal digit as text.
pub open spec fn digit_text(d: nat) -> Seq<char> {
    if d == 0 { "0"@ }
    else if d == 1 { "1"@ }
    else if d == 2 { "2"@ }
    else if d == 3 { "3"@ }
    else if d == 4 { "4"@ }
    else if d == 5 { "5"@ }
    else if d == 6 { "6"@ }
    else if d == 7 { "7"@ }
    else if d == 8 { "8"@ }
    else { "9"@ }
}

/// Appends the decimal digits of `n` to a text.
pub fn append_dec(out: &mut String, n: u64)
    ensures
        final(out)@ == old(out)@ + dec_text(n as nat),
    decreases n,
{
    if n >= 10 {
        append_dec(out, n / 10);
    }
    let d: u64 = n % 10;
    let t: &str = if d == 0 { "0" }
        else if d == 1 { "1" }
        else if d == 2 { "2" }
        else if d == 3 { "3" }
        else if d == 4 { "4" }
        else if d == 5 { "5" }
        else if d == 6 { "6" }
        else if d == 7 { "7" }
        else if d == 8 { "8" }
        else { "9" };
    out.append(t);
    assert(final(out)@ =~= old(out)@ + dec_text(n as nat));
}

// ---------------------------------------------------------------------------
// Hexadecimal

/// The lower-case hexadecimal digit of a value below sixteen.
pub open spec fn hex_digit(d: nat) -> u8 {
    if d < 10 { (48 + d) as u8 } else { (87 + d) as u8 }
}

/// The upper-case hexadecimal digit of a value below sixteen.
pub open spec fn hex_digit_upper(d: nat) -> u8 {
    if d < 10 { (48 + d) as u8 } else { (55 + d) as u8 }
}

/// The value of a hexadecimal digit of either case.
pub open spec fn hex_value(b: u8) -> Option<int> {
    if 0x30 <= b <= 0x39 {
        Some(b - 0x30)
    } else if 0x61 <= b <= 0x66 {
        Some(b - 0x61 + 10)
    } else if 0x41 <= b <= 0x46 {
        Some(b - 0x41 + 10)
    } else {
        None
    }
}

/// Two lower-case hexadecimal digits for each byte.
pub open spec fn hex(s: Seq<u8>) -> Seq<u8> {
    Seq::new(
        2 * s.len(),
        |i: int| if i % 2 == 0 { hex_digit(s[i / 2] as nat / 16) } else { hex_digit(s[i / 2] as nat % 16) },
    )
}

/// The bytes that a hexadecimal text stands for.
pub open spec fn unhex(s: Seq<u8>) -> Option<Seq<u8>> {
    if s.len() % 2 == 0 && (forall|i: int| 0 <= i < s.len() ==> hex_value(#[trigger] s[i]) is Some) {
        Some(
            Seq::new(
                s.len() / 2,
                |i: int| (16 * hex_value(s[2 * i])->0 + hex_value(s[2 * i + 1])->0) as u8,
            ),
        )
    } else {
        None
    }
}

/// Decoding gives back what was encoded.
pub proof fn law_hex_round_trip(s: Seq<u8>)
    ensures
        unhex(hex(s)) == Some(s),
{
    assert forall|i: int| 0 <= i < hex(s).len() implies hex_value(#[trigger] hex(s)[i]) is Some by {
        assert(s[i / 2] as nat / 16 < 16);
    }
    assert(unhex(hex(s))->0 =~= s) by {
        assert forall|i: int| 0 <= i < s.len() implies #[trigger] (unhex(hex(s))->0)[i] == s[i] by {
            assert((2 * i) / 2 == i && (2 * i + 1) / 2 == i);
            assert((2 * i) % 2 == 0 && (2 * i + 1) % 2 == 1);
        }
    }
}

fn hex_char(d: u8) -> (r: u8)
    requires
        d < 16,
    ensures
        r == hex_digit(d as nat),
{
    if d < 10 { 48 + d } else { 87 + d }
}

/// Appends one byte as two upper-case hexadecimal digits.
pub fn push_hex_upper(out: &mut Vec<u8>, b: u8)
    ensures
        final(out)@ == old(out)@ + seq![hex_digit_upper(b as nat / 16), hex_digit_upper(b as nat % 16)],
{
    let h: u8 = b / 16;
    let l: u8 = b % 16;
    out.push(if h < 10 { 48 + h } else { 55 + h });
    out.push(if l < 10 { 48 + l } else { 55 + l });
    assert(final(out)@ =~= old(out)@ + seq![hex_digit_upper(b as nat / 16), hex_digit_upper(b as nat % 16)]);
}

/// Appends the lower-case hexadecimal digits of `data`.
pub fn push_hex(out: &mut Vec<u8>, data: &[u8])
    ensures
        final(out)@ == old(out)@ + hex(data@),
{
    let ghost start = out@;
    let mut i: usize = 0;
    while i < data.len()
        invariant
            i <= data.len(),
            out@ == start + hex(data@.take(i as int)),
        decreases data.len() - i,
    {
        out.push(hex_char(data[i] / 16));
        out.push(hex_char(data[i] % 16));
        proof {
            let a = hex(data@.take(i as int));
            let b = hex(data@.take(i + 1));
            assert(b =~= a + seq![hex_digit(data@[i as int] as nat / 16), hex_digit(data@[i as int] as nat % 16)]);
            assert(out@ =~= start + b);
        }
        i += 1;
    }
    assert(data@.take(i as int) =~= data@);
}

/// Two lower-case hexadecimal digits for each byte of `data`.
pub fn hex_encode(data: &[u8]) -> (r: Vec<u8>)
    ensures
        r@ == hex(data@),
{
    let mut r: Vec<u8> = Vec::new();
    push_hex(&mut r, data);
    assert(r@ =~= hex(data@));
    r
}

fn hex_val(b: u8) -> (r: Option<u8>)
    ensures
        match hex_value(b) {
            Some(v) => r == Some(v as u8) && 0 <= v < 16,
            None => r is None,
        },
{
    if 0x30 <= b && b <= 0x39 {
        Some(b - 0x30)
    } else if 0x61 <= b && b <= 0x66 {
        Some(b - 0x61 + 10)
    } else if 0x41 <= b && b <= 0x46 {
        Some(b - 0x41 + 10)
    } else {
        None
    }
}

/// Decodes a hexadecimal text: `None` on an odd length or a byte that is no
/// hexadecimal digit.
pub fn hex_decode(s: &[u8]) -> (r: Option<Vec<u8>>)
    ensures
        match unhex(s@) {
            Some(v) => r is Some && r->0@ == v,
            None => r is None,
        },
{
    if s.len() % 2 != 0 {
        return None;
    }
    let mut out: Vec<u8> = Vec::new();
    let mut i: usize = 0;
    while i < s.len()
        invariant
            s.len() % 2 == 0,
            i % 2 == 0,
            i <= s.len(),
            forall|k: int| 0 <= k < i ==> hex_value(#[trigger] s@[k]) is Some,
            out@ == Seq::new(
                (i / 2) as nat,
                |k: int| (16 * hex_value(s@[2 * k])->0 + hex_value(s@[2 * k + 1])->0) as u8,
            ),
        decreases s.len() - i,
    {
        let h = hex_val(s[i]);
        let l = hex_val(s[i + 1]);
        match (h, l) {
            (Some(a), Some(b)) => {
                out.push(16 * a + b);
            },
            _ => {
                assert(hex_value(s@[i as int]) is None || hex_value(s@[i + 1]) is None);
                return None;
            },
        }
        i += 2;
        assert(out@ =~= Seq::new(
            (i / 2) as nat,
            |k: int| (16 * hex_value(s@[2 * k])->0 + hex_value(s@[2 * k + 1])->0) as u8,
        ));
    }
    Some(out)
}

// ---------------------------------------------------------------------------
// DER length headers

/// A big-endian number.
pub open spec fn be_value(s: Seq<u8>) -> nat
    decreases s.len(),
{
    if s.len() == 0 {
        0
    } else {
        be_value(s.drop_last()) * 256 + s.last() as nat
    }
}

/// The length of a DER value with its header, read off the header alone: `None`
/// for a truncated header, the indefinite form, a length of more than four
/// bytes, or a total that no `usize` holds.
pub open spec fn der_len(s: Seq<u8>) -> Option<int> {
    if s.len() < 2 {
        None
    } else if s[1] < 0x80 {
        Some(2 + s[1] as int)
    } else {
        let n = s[1] - 0x80;
        if n == 0 || n > 4 || s.len() < 2 + n {
            None
        } else {
            let total = 2 + n + be_value(s.subrange(2, 2 + n));
            if total > usize::MAX {
                None
            } else {
                Some(total)
            }
        }
    }
}

/// Length of the DER value at the start of `s`, header and content together.
pub fn der_total_len(s: &[u8]) -> (r: Option<usize>)
    ensures
        match der_len(s@) {
            Some(n) => r is Some && r->0 == n && 2 <= n <= usize::MAX,
            None => r is None,
        },
{
    if s.len() < 2 {
        return None;
    }
    if s[1] < 0x80 {
        return Some(2 + s[1] as usize);
    }
    let n: usize = (s[1] - 0x80) as usize;
    if n == 0 || n > 4 || s.len() < 2 + n {
        return None;
    }
    let mut v: u64 = 0;
    let mut i: usize = 0;
    while i < n
        invariant
            n <= 4,
            i <= n,
            s.len() >= 2 + n,
            v == be_value(s@.subrange(2, 2 + i)),
            i == 0 ==> v == 0,
            i == 1 ==> v < 0x100,
            i == 2 ==> v < 0x1_0000,
            i == 3 ==> v < 0x100_0000,
            i == 4 ==> v < 0x1_0000_0000,
        decreases n - i,
    {
        assert(s@.subrange(2, 2 + i + 1).drop_last() =~= s@.subrange(2, 2 + i));
        v = v * 256 + s[2 + i] as u64;
        i += 1;
    }
    let total: u64 = v + 2 + n as u64;
    if total > usize::MAX as u64 {
        None
    } else {
        Some(total as usize)
    }
}

} // verus!
