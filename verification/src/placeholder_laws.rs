//! The placeholders that an update writes are the ones that signing finds.
use vstd::prelude::*;
use vstd::utf8::{
    decode_utf8, encode_utf8, encode_utf8_decode_utf8, encode_utf8_valid_utf8, is_ascii_chars, is_ascii_chars_encode_utf8,
    valid_utf8,
};

use crate::error::ErrorView;
use crate::incremental::lemma_digits_value_grows;
use crate::locate::{byte_range_in, contents_after, numbers_in};
use crate::placeholder::{
    byte_range_span, filled, law_fill_keeps_signed_bytes, law_patch_keeps_rest, located, patched, range_text, spaces,
    zero_digits,
};
use crate::sign::prepared;
use crate::sign_laws::{lemma_unhex_padded, padded};
use crate::text::{digits_from, is_white, lemma_skip_white, signed, skip_white, word_end, words_from};
use crate::util::{
    dec, dec_int, digits_value, first_from, hex, hex_value, is_digit, lemma_dec, lemma_first_from, lemma_first_from_is,
    lemma_lit, lit, occurs_at,
};

verus! {

// ---------------------------------------------------------------------------
// Where the placeholders stand

/// The text from the `/ByteRange` key up to its bracket.
pub open spec fn range_key() -> Seq<u8> {
    lit("/ByteRange [")
}

/// The text from the bracket behind the byte range up to the `<` of the contents.
pub open spec fn contents_key() -> Seq<u8> {
    lit("] /Contents <")
}

/// A byte that the numbers of a byte range consist of, or that stands between them.
pub open spec fn is_range_char(b: u8) -> bool {
    is_digit(b) || b == 0x20 || b == 0x2d
}

/// From index `p` on, the file holds the placeholders of a signature dictionary:
/// numbers of 34 bytes, and contents of `capacity` bytes.
pub open spec fn placeholders_at(u: Seq<u8>, p: int, capacity: nat) -> bool {
    &&& 0 <= p
    &&& p + 59 + 2 * capacity < u.len()
    &&& u.subrange(p, p + 12) == range_key()
    &&& forall|i: int| p + 12 <= i < p + 46 ==> is_range_char(#[trigger] u[i])
    &&& u.subrange(p + 46, p + 59) == contents_key()
    &&& u[p + 59 + 2 * capacity] == 0x3e
}

/// None of the bytes from `start` up to `p` begins a `/ByteRange`.
pub open spec fn no_range_between(u: Seq<u8>, start: int, p: int) -> bool {
    forall|j: int| start <= j < p ==> !#[trigger] occurs_at(u, lit("/ByteRange"), j)
}

proof fn lemma_literals()
    ensures
        lit("/ByteRange") == seq![0x2fu8, 0x42u8, 0x79u8, 0x74u8, 0x65u8, 0x52u8, 0x61u8, 0x6eu8, 0x67u8, 0x65u8],
        range_key() == lit("/ByteRange") + seq![0x20u8, 0x5bu8],
        lit("/Contents") == seq![0x2fu8, 0x43u8, 0x6fu8, 0x6eu8, 0x74u8, 0x65u8, 0x6eu8, 0x74u8, 0x73u8],
        contents_key() == seq![0x5du8, 0x20u8] + lit("/Contents") + seq![0x20u8, 0x3cu8],
        lit("[") == seq![0x5bu8],
        lit("]") == seq![0x5du8],
        lit("<") == seq![0x3cu8],
        lit(">") == seq![0x3eu8],
{
    reveal_strlit("/ByteRange");
    reveal_strlit("/ByteRange [");
    reveal_strlit("/Contents");
    reveal_strlit("] /Contents <");
    reveal_strlit("[");
    reveal_strlit("]");
    reveal_strlit("<");
    reveal_strlit(">");
    lemma_lit("/ByteRange");
    lemma_lit("/ByteRange [");
    lemma_lit("/Contents");
    lemma_lit("] /Contents <");
    lemma_lit("[");
    lemma_lit("]");
    lemma_lit("<");
    lemma_lit(">");
    assert(lit("/ByteRange") =~= seq![
        0x2fu8,
        0x42u8,
        0x79u8,
        0x74u8,
        0x65u8,
        0x52u8,
        0x61u8,
        0x6eu8,
        0x67u8,
        0x65u8,
    ]);
    assert(range_key() =~= lit("/ByteRange") + seq![0x20u8, 0x5bu8]);
    assert(lit("/Contents") =~= seq![0x2fu8, 0x43u8, 0x6fu8, 0x6eu8, 0x74u8, 0x65u8, 0x6eu8, 0x74u8, 0x73u8]);
    assert(contents_key() =~= seq![0x5du8, 0x20u8] + lit("/Contents") + seq![0x20u8, 0x3cu8]);
    assert(lit("[") =~= seq![0x5bu8]);
    assert(lit("]") =~= seq![0x5du8]);
    assert(lit("<") =~= seq![0x3cu8]);
    assert(lit(">") =~= seq![0x3eu8]);
}

/// Placeholders with no other `/ByteRange` in front of them are the ones that are found.
proof fn lemma_found(u: Seq<u8>, start: int, p: int, capacity: nat)
    requires
        0 <= start <= p,
        placeholders_at(u, p, capacity),
        no_range_between(u, start, p),
    ensures
        first_from(u, lit("/ByteRange"), start) == Some(p),
        located(u, capacity, start) == Ok::<(int, int), ErrorView>((p + 58, p + 59 + 2 * capacity)),
        byte_range_span(u, start) == Ok::<(int, int), ErrorView>((p + 11, p + 46)),
        u[p + 58] == 0x3c,
{
    lemma_literals();
    let a = u.subrange(p, p + 12);
    let b = u.subrange(p + 46, p + 59);
    assert forall|i: int| 0 <= i < 12 implies u[p + i] == #[trigger] range_key()[i] by {
        assert(a[i] == u[p + i]);
    }
    assert forall|i: int| 0 <= i < 13 implies u[p + 46 + i] == #[trigger] contents_key()[i] by {
        assert(b[i] == u[p + 46 + i]);
    }
    assert(u.subrange(p, p + 10) =~= lit("/ByteRange")) by {
        assert forall|i: int| 0 <= i < 10 implies u.subrange(p, p + 10)[i] == lit("/ByteRange")[i] by {
            assert(range_key()[i] == lit("/ByteRange")[i]);
        }
    }
    lemma_first_from_is(u, lit("/ByteRange"), start, p);
    // The contents.
    assert(u.subrange(p + 48, p + 57) =~= lit("/Contents")) by {
        assert forall|i: int| 0 <= i < 9 implies u.subrange(p + 48, p + 57)[i] == lit("/Contents")[i] by {
            assert(contents_key()[i + 2] == lit("/Contents")[i]);
        }
    }
    assert forall|j: int| p <= j < p + 48 implies !#[trigger] occurs_at(u, lit("/Contents"), j) by {
        if occurs_at(u, lit("/Contents"), j) {
            assert(u.subrange(j, j + 9)[0] == 0x2f && u.subrange(j, j + 9)[1] == 0x43);
            assert(u[j] == 0x2f && u[j + 1] == 0x43);
            if j < p + 12 {
                assert(u[p + (j - p)] == range_key()[j - p]);
                assert(range_key()[1] == 0x42);
            } else if j >= p + 46 {
                assert(u[p + 46 + (j - p - 46)] == contents_key()[j - p - 46]);
            }
        }
    }
    lemma_first_from_is(u, lit("/Contents"), p, p + 48);
    assert(contents_key()[12] == 0x3c);
    assert(u[p + 58] == 0x3c);
    assert(u.subrange(p + 58, p + 59) =~= lit("<"));
    assert forall|j: int| p + 48 <= j < p + 58 implies !#[trigger] occurs_at(u, lit("<"), j) by {
        if occurs_at(u, lit("<"), j) {
            assert(u.subrange(j, j + 1)[0] == 0x3c);
            assert(u[p + 46 + (j - p - 46)] == contents_key()[j - p - 46]);
        }
    }
    lemma_first_from_is(u, lit("<"), p + 48, p + 58);
    // The brackets.
    assert(range_key()[11] == 0x5b);
    assert(u[p + 11] == 0x5b);
    assert(u.subrange(p + 11, p + 12) =~= lit("["));
    assert forall|j: int| p <= j < p + 11 implies !#[trigger] occurs_at(u, lit("["), j) by {
        if occurs_at(u, lit("["), j) {
            assert(u.subrange(j, j + 1)[0] == 0x5b);
            assert(u[p + (j - p)] == range_key()[j - p]);
        }
    }
    lemma_first_from_is(u, lit("["), p, p + 11);
    assert(contents_key()[0] == 0x5d);
    assert(u[p + 46 + 0] == 0x5d);
    assert(u.subrange(p + 46, p + 47) =~= lit("]"));
    assert forall|j: int| p + 11 <= j < p + 46 implies !#[trigger] occurs_at(u, lit("]"), j) by {
        if occurs_at(u, lit("]"), j) {
            assert(u.subrange(j, j + 1)[0] == 0x5d);
            assert(u[j] == 0x5d);
        }
    }
    lemma_first_from_is(u, lit("]"), p + 11, p + 46);
}

// ---------------------------------------------------------------------------
// The byte range reads back

/// The characters of an ASCII text.
spec fn ascii_text(b: Seq<u8>) -> Seq<char> {
    Seq::new(b.len(), |i: int| b[i] as char)
}

proof fn lemma_ascii(b: Seq<u8>)
    requires
        forall|i: int| 0 <= i < b.len() ==> #[trigger] b[i] < 0x80,
    ensures
        valid_utf8(b),
        decode_utf8(b) == ascii_text(b),
{
    let t = ascii_text(b);
    assert(is_ascii_chars(t)) by {
        assert forall|i: int| 0 <= i < t.len() implies '\0' <= #[trigger] t[i] <= '\u{7f}' by {
            assert(b[i] < 0x80);
        }
    }
    is_ascii_chars_encode_utf8(t);
    assert(encode_utf8(t) =~= b) by {
        assert forall|i: int| 0 <= i < b.len() implies encode_utf8(t)[i] == b[i] by {
            assert(t[i] as u8 == b[i]);
        }
    }
    encode_utf8_valid_utf8(t);
    encode_utf8_decode_utf8(t);
}

proof fn lemma_digits_read(b: Seq<u8>, i: int, max: nat)
    requires
        0 <= i <= b.len(),
        forall|k: int| 0 <= k < b.len() ==> is_digit(#[trigger] b[k]),
        digits_value(b) <= max,
    ensures
        digits_from(ascii_text(b), i, digits_value(b.take(i)), 10, max) == Ok::<nat, Seq<char>>(digits_value(b)),
    decreases b.len() - i,
{
    let t = ascii_text(b);
    if i < b.len() {
        assert(is_digit(b[i]));
        assert(t[i] == b[i] as char);
        assert(b.take(i + 1).drop_last() =~= b.take(i));
        assert(b.take(i + 1).last() == b[i]);
        lemma_digits_value_grows(b, i + 1);
        lemma_digits_read(b, i + 1, max);
    } else {
        assert(b.take(i) =~= b);
    }
}

proof fn lemma_number_read(n: nat)
    requires
        n <= i64::MAX,
    ensures
        signed(ascii_text(dec(n))) == Some(n as int),
        forall|i: int| 0 <= i < dec(n).len() ==> !is_white(#[trigger] ascii_text(dec(n))[i]),
{
    lemma_dec(n);
    let b = dec(n);
    let t = ascii_text(b);
    assert(is_digit(b[0]));
    assert(t[0] == b[0] as char);
    lemma_digits_read(b, 0, i64::MAX as nat);
    assert(b.take(0) =~= Seq::empty());
    assert forall|i: int| 0 <= i < b.len() implies !is_white(#[trigger] t[i]) by {
        assert(is_digit(b[i]));
    }
}

proof fn lemma_word_end_is(x: Seq<char>, i: int, e: int)
    requires
        0 <= i <= e <= x.len(),
        forall|k: int| i <= k < e ==> !is_white(#[trigger] x[k]),
        e == x.len() || is_white(x[e]),
    ensures
        word_end(x, i) == e,
    decreases e - i,
{
    if i < e {
        lemma_word_end_is(x, i + 1, e);
    }
}

/// A word that a blank ends is the first one, and the others come behind it.
proof fn lemma_first_word(x: Seq<char>, i: int, a: int, e: int)
    requires
        0 <= i <= a < e <= x.len(),
        a == i || (a == i + 1 && is_white(x[i])),
        forall|k: int| a <= k < e ==> !is_white(#[trigger] x[k]),
        e == x.len() || is_white(x[e]),
    ensures
        words_from(x, i) == seq![x.subrange(a, e)] + words_from(x, e),
{
    assert(!is_white(x[a]));
    assert(skip_white(x, a) == a);
    lemma_word_end_is(x, a, e);
}

proof fn lemma_no_more_words(x: Seq<char>, i: int)
    requires
        0 <= i <= x.len(),
        forall|k: int| i <= k < x.len() ==> is_white(#[trigger] x[k]),
    ensures
        words_from(x, i) == Seq::<Seq<char>>::empty(),
{
    lemma_skip_white(x, i);
}

proof fn lemma_negative_digits(b: Seq<u8>, i: int, max: nat)
    requires
        0 <= i <= b.len(),
        forall|k: int| 0 <= k < b.len() ==> is_digit(#[trigger] b[k]),
        digits_value(b) <= max,
    ensures
        digits_from(ascii_text(seq![0x2du8] + b), i + 1, digits_value(b.take(i)), 10, max) == Ok::<nat, Seq<char>>(
            digits_value(b),
        ),
    decreases b.len() - i,
{
    let t = ascii_text(seq![0x2du8] + b);
    if i < b.len() {
        assert(is_digit(b[i]));
        assert(t[i + 1] == b[i] as char);
        assert(b.take(i + 1).drop_last() =~= b.take(i));
        assert(b.take(i + 1).last() == b[i]);
        lemma_digits_value_grows(b, i + 1);
        lemma_negative_digits(b, i + 1, max);
    } else {
        assert(b.take(i) =~= b);
    }
}

/// The notation of an integer consists of digits, with a minus in front where it is
/// negative.
proof fn lemma_dec_int(n: int)
    ensures
        dec_int(n).len() >= 1,
        forall|i: int| 0 <= i < dec_int(n).len() ==> is_range_char(#[trigger] dec_int(n)[i]) && dec_int(n)[i] != 0x20,
{
    if n < 0 {
        lemma_dec((-n) as nat);
        let d = dec((-n) as nat);
        assert forall|i: int| 0 <= i < dec_int(n).len() implies is_range_char(#[trigger] dec_int(n)[i]) && dec_int(n)[i]
            != 0x20 by {
            if i > 0 {
                assert(is_digit(d[i - 1]));
            }
        }
    } else {
        lemma_dec(n as nat);
    }
}

proof fn lemma_integer_read(n: int)
    requires
        i64::MIN <= n <= i64::MAX,
    ensures
        signed(ascii_text(dec_int(n))) == Some(n),
        forall|i: int| 0 <= i < dec_int(n).len() ==> !is_white(#[trigger] ascii_text(dec_int(n))[i]),
{
    lemma_dec_int(n);
    if n >= 0 {
        lemma_number_read(n as nat);
    } else {
        let b = dec((-n) as nat);
        lemma_dec((-n) as nat);
        lemma_negative_digits(b, 0, 0x8000_0000_0000_0000);
        assert(b.take(0) =~= Seq::empty());
        assert(ascii_text(dec_int(n))[0] == '-');
    }
    assert forall|i: int| 0 <= i < dec_int(n).len() implies !is_white(#[trigger] ascii_text(dec_int(n))[i]) by {
        assert(is_range_char(dec_int(n)[i]));
    }
}

/// The numbers between the brackets, and the blanks behind them.
spec fn inner_text(a: int, b: int, c: int, n: int) -> Seq<u8> {
    lit("0 ") + dec_int(a) + lit(" ") + dec_int(b) + lit(" ") + dec_int(c) + spaces(n)
}

/// The numbers stand one behind the other, with blanks between and behind them.
spec fn laid_out(s: Seq<u8>, a: int, b: int, c: int) -> bool {
    let (la, lb, lc) = (dec_int(a).len() as int, dec_int(b).len() as int, dec_int(c).len() as int);
    let (pb, pc) = (3 + la, 4 + la + lb);
    &&& la >= 1 && lb >= 1 && lc >= 1
    &&& s.len() >= pc + lc
    &&& s.subrange(0, 1) == dec_int(0)
    &&& s.subrange(2, 2 + la) == dec_int(a)
    &&& s.subrange(pb, pb + lb) == dec_int(b)
    &&& s.subrange(pc, pc + lc) == dec_int(c)
    &&& s[1] == 0x20
    &&& s[2 + la] == 0x20
    &&& s[pb + lb] == 0x20
    &&& forall|i: int| pc + lc <= i < s.len() ==> #[trigger] s[i] == 0x20
    &&& forall|i: int| 0 <= i < s.len() ==> is_range_char(#[trigger] s[i])
}

proof fn lemma_inner_layout(a: int, b: int, c: int, n: int)
    requires
        n >= 0,
    ensures
        laid_out(inner_text(a, b, c, n), a, b, c),
{
    reveal_strlit("0 ");
    reveal_strlit(" ");
    lemma_lit("0 ");
    lemma_lit(" ");
    lemma_dec_int(a);
    lemma_dec_int(b);
    lemma_dec_int(c);
    let s = inner_text(a, b, c, n);
    let (la, lb, lc) = (dec_int(a).len() as int, dec_int(b).len() as int, dec_int(c).len() as int);
    let (pb, pc) = (3 + la, 4 + la + lb);
    assert(s.subrange(0, 1) =~= dec_int(0));
    assert(s.subrange(2, 2 + la) =~= dec_int(a));
    assert(s.subrange(pb, pb + lb) =~= dec_int(b));
    assert(s.subrange(pc, pc + lc) =~= dec_int(c));
    assert forall|i: int| 0 <= i < s.len() implies is_range_char(#[trigger] s[i]) by {
        if 2 <= i < 2 + la {
            assert(s[i] == dec_int(a)[i - 2]);
        } else if pb <= i < pb + lb {
            assert(s[i] == dec_int(b)[i - pb]);
        } else if pc <= i < pc + lc {
            assert(s[i] == dec_int(c)[i - pc]);
        }
    }
}

proof fn lemma_word_of_digits(s: Seq<u8>, i: int, p: int, n: int)
    requires
        i64::MIN <= n <= i64::MAX,
        0 <= i <= p,
        p == i || (p == i + 1 && s[i] == 0x20),
        p + dec_int(n).len() <= s.len(),
        s.subrange(p, p + dec_int(n).len()) == dec_int(n),
        p + dec_int(n).len() == s.len() || s[p + dec_int(n).len()] == 0x20,
    ensures
        words_from(ascii_text(s), i) == seq![ascii_text(dec_int(n))] + words_from(ascii_text(s), p + dec_int(n).len()),
        signed(ascii_text(dec_int(n))) == Some(n),
{
    let x = ascii_text(s);
    let e = p + dec_int(n).len() as int;
    lemma_integer_read(n);
    lemma_dec_int(n);
    assert(x.subrange(p, e) =~= ascii_text(dec_int(n))) by {
        assert forall|k: int| 0 <= k < dec_int(n).len() implies x[p + k] == ascii_text(dec_int(n))[k] by {
            assert(s.subrange(p, e)[k] == s[p + k]);
        }
    }
    assert forall|k: int| p <= k < e implies !is_white(#[trigger] x[k]) by {
        assert(x.subrange(p, e)[k - p] == x[k]);
    }
    lemma_first_word(x, i, p, e);
}

proof fn lemma_four_numbers(w: Seq<Seq<char>>, a: int, b: int, c: int)
    requires
        w.len() == 4,
        signed(w[0]) == Some(0int),
        signed(w[1]) == Some(a),
        signed(w[2]) == Some(b),
        signed(w[3]) == Some(c),
    ensures
        numbers_in(w) == seq![0i64, a as i64, b as i64, c as i64],
{
    let w3 = w.drop_last();
    let w2 = w3.drop_last();
    let w1 = w2.drop_last();
    assert(w3.last() == w[2] && w2.last() == w[1] && w1.last() == w[0]);
    assert(w1.drop_last() =~= Seq::empty());
    assert(numbers_in(Seq::<Seq<char>>::empty()) =~= Seq::empty());
    assert(numbers_in(w1) =~= seq![0i64]);
    assert(numbers_in(w2) =~= seq![0i64, a as i64]);
    assert(numbers_in(w3) =~= seq![0i64, a as i64, b as i64]);
    assert(numbers_in(w) =~= seq![0i64, a as i64, b as i64, c as i64]);
}

proof fn lemma_numbers_read(s: Seq<u8>, a: int, b: int, c: int)
    requires
        i64::MIN <= a <= i64::MAX,
        i64::MIN <= b <= i64::MAX,
        i64::MIN <= c <= i64::MAX,
        laid_out(s, a, b, c),
    ensures
        valid_utf8(s),
        numbers_in(words_from(decode_utf8(s), 0)) == seq![0i64, a as i64, b as i64, c as i64],
{
    let x = ascii_text(s);
    lemma_ascii(s);
    let (la, lb, lc) = (dec_int(a).len() as int, dec_int(b).len() as int, dec_int(c).len() as int);
    let (pb, pc) = (3 + la, 4 + la + lb);
    assert(dec_int(0).len() == 1);
    lemma_word_of_digits(s, 0, 0, 0);
    lemma_word_of_digits(s, 1, 2, a);
    lemma_word_of_digits(s, 2 + la, pb, b);
    lemma_word_of_digits(s, pb + lb, pc, c);
    assert forall|k: int| pc + lc <= k < x.len() implies is_white(#[trigger] x[k]) by {
        assert(s[k] == 0x20);
    }
    lemma_no_more_words(x, pc + lc);
    let words = seq![ascii_text(dec_int(0)), ascii_text(dec_int(a)), ascii_text(dec_int(b)), ascii_text(dec_int(c))];
    assert(words_from(x, 0) =~= words);
    lemma_four_numbers(words, a, b, c);
}

// ---------------------------------------------------------------------------
// The placeholders made ready and filled

/// The byte range of a signature whose `<` stands at `lt`, in a file of `len` bytes.
pub open spec fn range_around(lt: int, capacity: nat, len: int) -> Seq<i64> {
    let q = lt + 2 + 2 * capacity;
    seq![0i64, lt as i64, q as i64, (len - q) as i64]
}

/// The file with its byte range written.
spec fn ranged(u: Seq<u8>, start: int, p: int, capacity: nat) -> Result<Seq<u8>, ErrorView> {
    let q = p + 60 + 2 * capacity;
    patched(u, start, p + 58, q, u.len() - q)
}

proof fn lemma_ranged(u: Seq<u8>, start: int, p: int, capacity: nat)
    requires
        0 <= start <= p,
        placeholders_at(u, p, capacity),
        no_range_between(u, start, p),
        u.len() <= i64::MAX,
        prepared(u, capacity, start) is Ok,
    ensures
        prepared(u, capacity, start) matches Ok((v, lt)) && ranged(u, start, p, capacity) == Ok::<Seq<u8>, ErrorView>(v)
            && lt == p + 58,
        ranged(u, start, p, capacity) matches Ok(v) && v.len() == u.len() && (forall|i: int|
            0 <= i < u.len() && !(p + 11 <= i <= p + 46) ==> #[trigger] v[i] == u[i]),
{
    lemma_found(u, start, p, capacity);
    let q = p + 60 + 2 * capacity;
    let (a, b, c) = ((p + 58) as nat, q as nat, (u.len() - q) as nat);
    reveal_strlit("[0 ");
    reveal_strlit(" ");
    lemma_lit("[0 ");
    lemma_lit(" ");
    assert(range_text(a as int, b as int, c as int).len() <= 35);
    assert(ranged(u, start, p, capacity) is Ok);
    law_patch_keeps_rest(u, start, a as int, b as int, c as int);
}

/// The text that the byte range is written as.
proof fn lemma_ranged_text(u: Seq<u8>, start: int, p: int, capacity: nat)
    requires
        0 <= start <= p,
        placeholders_at(u, p, capacity),
        no_range_between(u, start, p),
        u.len() <= i64::MAX,
        prepared(u, capacity, start) is Ok,
    ensures
        ({
            let v = ranged(u, start, p, capacity)->Ok_0;
            let q = p + 60 + 2 * capacity;
            let text = range_text(p + 58, q, u.len() - q);
            let n = 35 - text.len();
            &&& n >= 0
            &&& v[p + 11] == 0x5b
            &&& v[p + 46] == 0x5d
            &&& v.subrange(p + 12, p + 46) == inner_text(p + 58, q, u.len() - q, n)
        }),
{
    lemma_ranged(u, start, p, capacity);
    lemma_found(u, start, p, capacity);
    let v = ranged(u, start, p, capacity)->Ok_0;
    let q = p + 60 + 2 * capacity;
    let (a, b, c) = ((p + 58) as nat, q as nat, (u.len() - q) as nat);
    let text = range_text(a as int, b as int, c as int);
    let n = 35 - text.len();
    reveal_strlit("[0 ");
    reveal_strlit("0 ");
    reveal_strlit(" ");
    reveal_strlit("]");
    lemma_lit("[0 ");
    lemma_lit("0 ");
    lemma_lit(" ");
    lemma_lit("]");
    let mid = text + spaces(n) + lit("]");
    assert(v == u.take(p + 11) + mid + u.skip(p + 47));
    assert(mid.len() == 36);
    assert(v.subrange(p + 11, p + 47) =~= mid);
    assert(v.subrange(p + 11, p + 47)[0] == v[p + 11]);
    assert(text[0] == 0x5b);
    assert(v.subrange(p + 11, p + 47)[35] == v[p + 46]);
    assert(lit("[0 ") =~= seq![0x5bu8] + lit("0 "));
    let inner = inner_text(a as int, b as int, c as int, n);
    assert(mid =~= seq![0x5bu8] + inner + seq![0x5du8]);
    assert(v.subrange(p + 12, p + 46) =~= mid.subrange(1, 35));
    assert(mid.subrange(1, 35) =~= inner);
}

/// A byte of the filled file that lies outside of the contents.
proof fn lemma_filled_index(v: Seq<u8>, lt: int, capacity: nat, der: Seq<u8>, i: int)
    requires
        0 <= lt,
        lt + 1 + 2 * capacity < v.len(),
        der.len() <= capacity,
        0 <= i < v.len(),
        i <= lt || lt + 1 + 2 * capacity <= i,
    ensures
        filled(v, lt, capacity, der)->Ok_0[i] == v[i],
{
    let mid = hex(der) + zero_digits(2 * capacity - 2 * der.len());
    assert(mid.len() == 2 * capacity);
}

/// With its byte range written, the file has its placeholders where they were.
proof fn lemma_ranged_placeholders(u: Seq<u8>, start: int, p: int, capacity: nat)
    requires
        0 <= start <= p,
        placeholders_at(u, p, capacity),
        no_range_between(u, start, p),
        u.len() <= i64::MAX,
        prepared(u, capacity, start) is Ok,
    ensures
        ({
            let v = ranged(u, start, p, capacity)->Ok_0;
            let q = p + 60 + 2 * capacity;
            &&& placeholders_at(v, p, capacity)
            &&& laid_out(v.subrange(p + 12, p + 46), p + 58, q, u.len() - q)
        }),
{
    lemma_ranged(u, start, p, capacity);
    lemma_ranged_text(u, start, p, capacity);
    let v = ranged(u, start, p, capacity)->Ok_0;
    let q = p + 60 + 2 * capacity;
    let text = range_text(p + 58, q, u.len() - q);
    lemma_inner_layout(p + 58, q, u.len() - q, 35 - text.len());
    lemma_same_placeholders(u, v, p, capacity);
}

proof fn lemma_same_placeholders(u: Seq<u8>, v: Seq<u8>, p: int, capacity: nat)
    requires
        placeholders_at(u, p, capacity),
        v.len() == u.len(),
        forall|i: int| 0 <= i < u.len() && !(p + 11 <= i <= p + 46) ==> #[trigger] v[i] == u[i],
        v[p + 11] == 0x5b,
        v[p + 46] == 0x5d,
        forall|i: int|
            0 <= i < 34 ==> is_range_char(#[trigger] v.subrange(p + 12, p + 46)[i]),
    ensures
        placeholders_at(v, p, capacity),
{
    lemma_literals();
    let inner = v.subrange(p + 12, p + 46);
    assert forall|i: int| p + 12 <= i < p + 46 implies is_range_char(#[trigger] v[i]) by {
        assert(v[i] == inner[i - p - 12]);
    }
    let ru = u.subrange(p, p + 12);
    let cu = u.subrange(p + 46, p + 59);
    assert(ru[11] == 0x5b);
    assert(cu[0] == 0x5d);
    assert(v.subrange(p, p + 12) =~= ru);
    assert(v.subrange(p + 46, p + 59) =~= cu);
}

/// With its contents written, the file has its placeholders where they were.
proof fn lemma_filled_placeholders(v: Seq<u8>, p: int, capacity: nat, der: Seq<u8>)
    requires
        placeholders_at(v, p, capacity),
        der.len() <= capacity,
    ensures
        ({
            let file = filled(v, p + 58, capacity, der)->Ok_0;
            &&& file.len() == v.len()
            &&& placeholders_at(file, p, capacity)
            &&& file.subrange(p + 12, p + 46) == v.subrange(p + 12, p + 46)
            &&& file.subrange(p + 59, p + 59 + 2 * capacity) == hex(der) + zero_digits(2 * capacity - 2 * der.len())
        }),
{
    let lt = p + 58;
    let file = filled(v, lt, capacity, der)->Ok_0;
    law_fill_keeps_signed_bytes(v, lt, capacity, der);
    assert forall|i: int| 0 <= i <= lt implies #[trigger] file[i] == v[i] by {
        lemma_filled_index(v, lt, capacity, der, i);
    }
    assert(file.subrange(p + 12, p + 46) =~= v.subrange(p + 12, p + 46));
    assert(file.subrange(p, p + 12) =~= v.subrange(p, p + 12));
    assert(file.subrange(p + 46, p + 59) =~= v.subrange(p + 46, p + 59));
}

/// The file carries a signature in the dictionary whose `/ByteRange` stands at `p`: the
/// four numbers lie around its contents, and its contents are the signature and the
/// padding.
pub open spec fn carries_at(file: Seq<u8>, p: int, capacity: nat, der: Seq<u8>) -> bool {
    &&& occurs_at(file, lit("/ByteRange"), p)
    &&& byte_range_in(file.skip(p)) == Ok::<Seq<i64>, ErrorView>(range_around(p + 58, capacity, file.len() as int))
    &&& contents_after(file, p) == Some(padded(der, capacity))
}

proof fn lemma_range_reads(file: Seq<u8>, p: int, capacity: nat)
    requires
        placeholders_at(file, p, capacity),
        file.len() <= i64::MAX,
        laid_out(
            file.subrange(p + 12, p + 46),
            p + 58,
            p + 60 + 2 * capacity,
            file.len() - (p + 60 + 2 * capacity),
        ),
    ensures
        byte_range_in(file.skip(p)) == Ok::<Seq<i64>, ErrorView>(range_around(p + 58, capacity, file.len() as int)),
{
    let s = file.skip(p);
    assert(s.subrange(0, 12) =~= file.subrange(p, p + 12));
    assert(s.subrange(46, 59) =~= file.subrange(p + 46, p + 59));
    assert(placeholders_at(s, 0, capacity));
    lemma_found(s, 0, 0, capacity);
    let (open, close) = byte_range_span(s, 0)->Ok_0;
    assert(s.subrange(12, 46) =~= file.subrange(p + 12, p + 46));
    let q = p + 60 + 2 * capacity;
    lemma_numbers_read(s.subrange(12, 46), p + 58, q, file.len() - q);
}

proof fn lemma_contents_read(file: Seq<u8>, p: int, capacity: nat, der: Seq<u8>)
    requires
        placeholders_at(file, p, capacity),
        der.len() <= capacity,
        file.subrange(p + 59, p + 59 + 2 * capacity) == hex(der) + zero_digits(2 * capacity - 2 * der.len()),
    ensures
        contents_after(file, p) == Some(padded(der, capacity)),
{
    lemma_literals();
    lemma_found(file, p, p, capacity);
    lemma_unhex_padded(der, capacity);
    let lt = p + 58;
    let gt = p + 59 + 2 * capacity;
    let mid = file.subrange(lt + 1, gt);
    assert(file.subrange(gt, gt + 1) =~= lit(">"));
    assert forall|j: int| lt <= j < gt implies !#[trigger] occurs_at(file, lit(">"), j) by {
        if occurs_at(file, lit(">"), j) {
            assert(file.subrange(j, j + 1)[0] == 0x3e);
            if j > lt {
                assert(mid[j - lt - 1] == file[j]);
                assert(hex_value(mid[j - lt - 1]) is Some);
            }
        }
    }
    lemma_first_from_is(file, lit(">"), lt, gt);
}

/// A signature that was written into its placeholders reads back, from the file alone:
/// behind its `/ByteRange` stand the four numbers around its contents, and its contents
/// are the signature and the padding.
pub proof fn law_placeholders_read_back(u: Seq<u8>, start: int, p: int, capacity: nat, der: Seq<u8>)
    requires
        0 <= start <= p,
        placeholders_at(u, p, capacity),
        no_range_between(u, start, p),
        u.len() <= i64::MAX,
        prepared(u, capacity, start) is Ok,
        der.len() <= capacity,
    ensures
        match prepared(u, capacity, start) {
            Ok((v, lt)) => {
                &&& lt == p + 58
                &&& v.len() == u.len()
                &&& v[lt] == 0x3c
                &&& v[lt + 1 + 2 * capacity] == 0x3e
                &&& filled(v, lt, capacity, der) is Ok
                &&& carries_at(filled(v, lt, capacity, der)->Ok_0, p, capacity, der)
            },
            Err(_) => false,
        },
{
    lemma_found(u, start, p, capacity);
    lemma_ranged(u, start, p, capacity);
    lemma_ranged_placeholders(u, start, p, capacity);
    let (v, lt) = prepared(u, capacity, start)->Ok_0;
    lemma_found(v, p, p, capacity);
    lemma_filled_placeholders(v, p, capacity, der);
    let file = filled(v, lt, capacity, der)->Ok_0;
    lemma_found(file, p, p, capacity);
    lemma_first_from(file, lit("/ByteRange"), p);
    lemma_range_reads(file, p, capacity);
    lemma_contents_read(file, p, capacity, der);
}

/// What stands in front of the byte range stays as it is.
pub proof fn lemma_before_range_stays(u: Seq<u8>, start: int, p: int, capacity: nat)
    requires
        0 <= start <= p,
        placeholders_at(u, p, capacity),
        no_range_between(u, start, p),
        u.len() <= i64::MAX,
        prepared(u, capacity, start) is Ok,
    ensures
        match prepared(u, capacity, start) {
            Ok((v, _)) => v.len() == u.len() && (forall|i: int| 0 <= i < p ==> #[trigger] v[i] == u[i]),
            Err(_) => false,
        },
{
    lemma_ranged(u, start, p, capacity);
}

/// What is written into a byte range reads back: where the array of the first `/ByteRange`
/// at or behind `start` takes the numbers, they are the ones that are read from there, and
/// that `/ByteRange` is still the first.
pub proof fn law_patched_range_reads_back(buf: Seq<u8>, start: int, a: i64, b: i64, c: i64)
    requires
        0 <= start <= buf.len(),
        patched(buf, start, a as int, b as int, c as int) is Ok,
    ensures
        ({
            let v = patched(buf, start, a as int, b as int, c as int)->Ok_0;
            &&& first_from(v, lit("/ByteRange"), start) is Some
            &&& first_from(v, lit("/ByteRange"), start) == first_from(buf, lit("/ByteRange"), start)
            &&& byte_range_in(v.skip(first_from(v, lit("/ByteRange"), start)->0)) == Ok::<Seq<i64>, ErrorView>(
                seq![0i64, a, b, c],
            )
        }),
{
    let v = patched(buf, start, a as int, b as int, c as int)->Ok_0;
    let (open, close) = byte_range_span(buf, start)->Ok_0;
    let br = first_from(buf, lit("/ByteRange"), start)->0;
    law_patch_keeps_rest(buf, start, a as int, b as int, c as int);
    lemma_range_key_stays(buf, v, start, br, open, close);
    lemma_patched_text(buf, start, a as int, b as int, c as int);
    let n = close - open - range_text(a as int, b as int, c as int).len();
    lemma_inner_layout(a as int, b as int, c as int, n);
    let s = v.skip(br);
    assert(s.subrange(open - br + 1, close - br) =~= v.subrange(open + 1, close));
    assert forall|j: int| 0 <= j < open - br implies #[trigger] s[j] != 0x5b by {
        assert(v[br + j] == buf[br + j]);
        lemma_no_bracket_before(buf, br, open, br + j);
    }
    lemma_array_reads(s, open - br, close - br, a as int, b as int, c as int);
}

proof fn lemma_no_bracket_before(buf: Seq<u8>, br: int, open: int, j: int)
    requires
        first_from(buf, lit("["), br) == Some(open),
        0 <= br <= j < open < buf.len(),
    ensures
        buf[j] != 0x5b,
{
    lemma_literals();
    lemma_first_from(buf, lit("["), br);
    if buf[j] == 0x5b {
        assert(buf.subrange(j, j + 1) =~= lit("["));
        assert(occurs_at(buf, lit("["), j));
    }
}

/// The numbers between the first brackets of a text.
proof fn lemma_array_reads(s: Seq<u8>, o: int, e: int, a: int, b: int, c: int)
    requires
        0 <= o < e < s.len(),
        s[o] == 0x5b,
        s[e] == 0x5d,
        forall|j: int| 0 <= j < o ==> #[trigger] s[j] != 0x5b,
        laid_out(s.subrange(o + 1, e), a, b, c),
        i64::MIN <= a <= i64::MAX,
        i64::MIN <= b <= i64::MAX,
        i64::MIN <= c <= i64::MAX,
    ensures
        byte_range_in(s) == Ok::<Seq<i64>, ErrorView>(seq![0i64, a as i64, b as i64, c as i64]),
{
    lemma_literals();
    let inner = s.subrange(o + 1, e);
    lemma_numbers_read(inner, a, b, c);
    assert(s.subrange(o, o + 1) =~= lit("["));
    assert forall|j: int| 0 <= j < o implies !#[trigger] occurs_at(s, lit("["), j) by {
        if occurs_at(s, lit("["), j) {
            assert(s.subrange(j, j + 1)[0] == s[j]);
        }
    }
    lemma_first_from_is(s, lit("["), 0, o);
    assert(s.subrange(e, e + 1) =~= lit("]"));
    assert forall|j: int| o <= j < e implies !#[trigger] occurs_at(s, lit("]"), j) by {
        if occurs_at(s, lit("]"), j) {
            assert(s.subrange(j, j + 1)[0] == s[j]);
            if j > o {
                assert(inner[j - o - 1] == s[j]);
                assert(is_range_char(inner[j - o - 1]));
            }
        }
    }
    lemma_first_from_is(s, lit("]"), o, e);
}

/// The `/ByteRange` in front of the array that was written is still the first.
proof fn lemma_range_key_stays(buf: Seq<u8>, v: Seq<u8>, start: int, br: int, open: int, close: int)
    requires
        0 <= start,
        first_from(buf, lit("/ByteRange"), start) == Some(br),
        first_from(buf, lit("["), br) == Some(open),
        v.len() == buf.len(),
        open < close < buf.len(),
        forall|i: int| 0 <= i < buf.len() && !(open <= i <= close) ==> #[trigger] v[i] == buf[i],
    ensures
        br + 10 <= open,
        first_from(v, lit("/ByteRange"), start) == Some(br),
{
    lemma_literals();
    let needle = lit("/ByteRange");
    lemma_first_from(buf, needle, start);
    lemma_first_from(buf, lit("["), br);
    assert(buf.subrange(open, open + 1)[0] == 0x5b);
    assert(buf[open] == 0x5b);
    if open < br + 10 {
        assert(buf.subrange(br, br + 10)[open - br] == buf[open]);
        assert(needle[open - br] != 0x5b);
    }
    assert(v.subrange(br, br + 10) =~= buf.subrange(br, br + 10));
    assert forall|j: int| start <= j < br implies !#[trigger] occurs_at(v, needle, j) by {
        if occurs_at(v, needle, j) {
            assert(v.subrange(j, j + 10) =~= buf.subrange(j, j + 10));
            assert(occurs_at(buf, needle, j));
        }
    }
    lemma_first_from_is(v, needle, start, br);
}

/// The text between the brackets that were written.
proof fn lemma_patched_text(buf: Seq<u8>, start: int, a: int, b: int, c: int)
    requires
        0 <= start <= buf.len(),
        patched(buf, start, a, b, c) is Ok,
    ensures
        ({
            let v = patched(buf, start, a, b, c)->Ok_0;
            let (open, close) = byte_range_span(buf, start)->Ok_0;
            let n = close - open - range_text(a, b, c).len();
            n >= 0 && v[open] == 0x5b && v[close] == 0x5d && v.subrange(open + 1, close) == inner_text(a, b, c, n)
        }),
{
    law_patch_keeps_rest(buf, start, a, b, c);
    let v = patched(buf, start, a, b, c)->Ok_0;
    let (open, close) = byte_range_span(buf, start)->Ok_0;
    let text = range_text(a, b, c);
    let n = close - open - text.len();
    reveal_strlit("[0 ");
    reveal_strlit("0 ");
    reveal_strlit(" ");
    reveal_strlit("]");
    lemma_lit("[0 ");
    lemma_lit("0 ");
    lemma_lit(" ");
    lemma_lit("]");
    let mid = text + spaces(n) + lit("]");
    assert(v == buf.take(open) + mid + buf.skip(close + 1));
    let inner = inner_text(a, b, c, n);
    assert(lit("[0 ") =~= seq![0x5bu8] + lit("0 "));
    assert(mid =~= seq![0x5bu8] + inner + seq![0x5du8]);
    assert(v.subrange(open, close + 1) =~= mid);
    assert(v.subrange(open, close + 1)[0] == v[open]);
    assert(v.subrange(open, close + 1)[close - open] == v[close]);
    assert(v.subrange(open + 1, close) =~= mid.subrange(1, close - open));
    assert(mid.subrange(1, close - open) =~= inner);
}

} // verus!
