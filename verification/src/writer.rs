//! A minimal, byte-exact PDF object serializer.
use vstd::prelude::*;

use crate::object::{
    key_index, lemma_key_index, lemma_objs, lemma_pairs, objs, put, Dict, Dictionary, Obj, Object, ObjectId, Real,
    Stream, StringFormat,
};
use crate::util::{
    dec, dec_int, hex, hex_digit_upper, lit, push_dec, push_hex, push_hex_upper, push_int, push_str, raw, utf8,
};

verus! {

// ---------------------------------------------------------------------------
// What objects look like in a file

/// A byte that stands for itself in a name.
pub open spec fn is_regular(b: u8) -> bool {
    0x21 <= b < 0x7f && b != 0x28 && b != 0x29 && b != 0x3c && b != 0x3e && b != 0x5b && b != 0x5d && b != 0x7b
        && b != 0x7d && b != 0x2f && b != 0x25 && b != 0x23
}

/// A byte of a name: itself, or `#` and two hexadecimal digits.
pub open spec fn name_char(b: u8) -> Seq<u8> {
    if is_regular(b) {
        seq![b]
    } else {
        seq![0x23u8, hex_digit_upper(b as nat / 16), hex_digit_upper(b as nat % 16)]
    }
}

/// The bytes of a name after its slash.
pub open spec fn name_chars(n: Seq<u8>) -> Seq<u8>
    decreases n.len(),
{
    if n.len() == 0 {
        Seq::empty()
    } else {
        name_chars(n.drop_last()) + name_char(n.last())
    }
}

/// A name as it is written.
pub open spec fn name_bytes(n: Seq<u8>) -> Seq<u8> {
    lit("/") + name_chars(n)
}

/// A byte of a literal string: brackets and the backslash get a backslash, line
/// ends their escape.
pub open spec fn literal_char(b: u8) -> Seq<u8> {
    if b == 0x28 || b == 0x29 || b == 0x5c {
        seq![0x5cu8, b]
    } else if b == 0x0a {
        lit("\\n")
    } else if b == 0x0d {
        lit("\\r")
    } else {
        seq![b]
    }
}

/// The bytes of a literal string between its brackets.
pub open spec fn literal_chars(s: Seq<u8>) -> Seq<u8>
    decreases s.len(),
{
    if s.len() == 0 {
        Seq::empty()
    } else {
        literal_chars(s.drop_last()) + literal_char(s.last())
    }
}

/// A string as it is written.
pub open spec fn string_bytes(s: Seq<u8>, f: StringFormat) -> Seq<u8> {
    match f {
        StringFormat::Hexadecimal => lit("<") + hex(s) + lit(">"),
        StringFormat::Literal => lit("(") + literal_chars(s) + lit(")"),
    }
}

/// Two to the power `n`.
pub open spec fn pow2(n: nat) -> nat
    decreases n,
{
    if n == 0 {
        1
    } else {
        2 * pow2((n - 1) as nat)
    }
}

/// The magnitude of a single-precision number that is finite and integral.
pub open spec fn integral_magnitude(bits: u32) -> Option<nat> {
    let exponent = (bits as nat / pow2(23)) % 256;
    let fraction = bits as nat % pow2(23);
    let mantissa = pow2(23) + fraction;
    if exponent == 255 {
        None
    } else if exponent == 0 {
        if fraction == 0 {
            Some(0nat)
        } else {
            None
        }
    } else if exponent >= 150 {
        Some(mantissa * pow2((exponent - 150) as nat))
    } else if exponent >= 127 && mantissa % pow2((150 - exponent) as nat) == 0 {
        Some(mantissa / pow2((150 - exponent) as nat))
    } else {
        None
    }
}

/// A magnitude and a sign as a signed 64-bit number, the nearest one where it
/// does not fit.
pub open spec fn saturated(negative: bool, magnitude: nat) -> int {
    if negative {
        if magnitude > 0x8000_0000_0000_0000 { i64::MIN as int } else { -(magnitude as int) }
    } else {
        if magnitude > i64::MAX { i64::MAX as int } else { magnitude as int }
    }
}

/// A real as it is written: without scientific notation, and as an integer
/// where its value is one.
pub open spec fn real_bytes(bits: u32, text: Seq<char>) -> Seq<u8> {
    match integral_magnitude(bits) {
        Some(m) => dec_int(saturated(bits >= 0x8000_0000, m)),
        None => utf8(text),
    }
}

/// A reference as it is written.
pub open spec fn reference_bytes(id: ObjectId) -> Seq<u8> {
    dec(id.0 as nat) + lit(" ") + dec(id.1 as nat) + lit(" R")
}

/// The entries of a dictionary as they are written, their values given as bytes.
pub open spec fn entries_bytes(e: Seq<(Seq<u8>, Seq<u8>)>) -> Seq<u8>
    decreases e.len(),
{
    if e.len() == 0 {
        Seq::empty()
    } else {
        entries_bytes(e.drop_last()) + entry_bytes(e.last().0, e.last().1)
    }
}

/// One entry of a dictionary.
pub open spec fn entry_bytes(key: Seq<u8>, value: Seq<u8>) -> Seq<u8> {
    name_bytes(key) + lit(" ") + value + lit(" ")
}

/// The entries of a dictionary with their values written out.
pub open spec fn written(d: Seq<(Seq<u8>, Obj)>) -> Seq<(Seq<u8>, Seq<u8>)>
    decreases d,
{
    if d.len() == 0 {
        Seq::empty()
    } else {
        written(d.drop_last()).push((d.last().0, object_bytes(d.last().1)))
    }
}

/// The elements of an array as they are written.
pub open spec fn elements_bytes(a: Seq<Obj>) -> Seq<u8>
    decreases a,
{
    if a.len() == 0 {
        Seq::empty()
    } else {
        elements_bytes(a.drop_last()) + (if a.len() > 1 { lit(" ") } else { Seq::empty() }) + object_bytes(a.last())
    }
}

/// An object as it is written.
pub open spec fn object_bytes(o: Obj) -> Seq<u8>
    decreases o,
{
    match o {
        Obj::Null => lit("null"),
        Obj::Boolean(b) => if b { lit("true") } else { lit("false") },
        Obj::Integer(i) => dec_int(i as int),
        Obj::Real(bits, text) => real_bytes(bits, text),
        Obj::Name(n) => name_bytes(n),
        Obj::String(s, f) => string_bytes(s, f),
        Obj::Array(a) => lit("[") + elements_bytes(a) + lit("]"),
        Obj::Dictionary(d) => lit("<< ") + entries_bytes(written(d)) + lit(">>"),
        Obj::Stream(d, c) => lit("<< ") + entries_bytes(put(written(d), lit("Length"), dec(c.len()))) + lit(">>")
            + lit("\nstream\n") + c + lit("\nendstream"),
        Obj::Reference(id) => reference_bytes(id),
    }
}

/// `written` keeps the keys and writes out each value.
pub proof fn lemma_written(d: Seq<(Seq<u8>, Obj)>)
    ensures
        written(d).len() == d.len(),
        forall|i: int| 0 <= i < d.len() ==> (#[trigger] written(d)[i]) == (d[i].0, object_bytes(d[i].1)),
    decreases d.len(),
{
    if d.len() > 0 {
        lemma_written(d.drop_last());
    }
}

// ---------------------------------------------------------------------------
// Writing objects

/// Writes a name.
pub fn write_name(out: &mut Vec<u8>, name: &[u8])
    ensures
        final(out)@ == old(out)@ + name_bytes(name@),
{
    push_str(out, "/");
    let ghost start = out@;
    let mut i: usize = 0;
    while i < name.len()
        invariant
            i <= name.len(),
            out@ == start + name_chars(name@.take(i as int)),
        decreases name.len() - i,
    {
        let b: u8 = name[i];
        let regular = 0x21 <= b && b < 0x7f && !matches!(
            b,
            0x28 | 0x29 | 0x3c | 0x3e | 0x5b | 0x5d | 0x7b | 0x7d | 0x2f | 0x25 | 0x23
        );
        if regular {
            out.push(b);
        } else {
            out.push(0x23);
            push_hex_upper(out, b);
        }
        assert(name@.take(i + 1).drop_last() =~= name@.take(i as int));
        assert(out@ =~= start + name_chars(name@.take(i + 1)));
        i += 1;
    }
    assert(name@.take(i as int) =~= name@);
    assert(out@ =~= old(out)@ + name_bytes(name@));
}

/// Writes a string in the given notation.
pub fn write_string(out: &mut Vec<u8>, s: &[u8], fmt: StringFormat)
    ensures
        final(out)@ == old(out)@ + string_bytes(s@, fmt),
{
    match fmt {
        StringFormat::Hexadecimal => {
            push_str(out, "<");
            push_hex(out, s);
            push_str(out, ">");
            assert(out@ =~= old(out)@ + string_bytes(s@, fmt));
        },
        StringFormat::Literal => {
            push_str(out, "(");
            let ghost start = out@;
            let mut i: usize = 0;
            while i < s.len()
                invariant
                    i <= s.len(),
                    out@ == start + literal_chars(s@.take(i as int)),
                decreases s.len() - i,
            {
                let b: u8 = s[i];
                if b == 0x28 || b == 0x29 || b == 0x5c {
                    out.push(0x5c);
                    out.push(b);
                } else if b == 0x0a {
                    push_str(out, "\\n");
                } else if b == 0x0d {
                    push_str(out, "\\r");
                } else {
                    out.push(b);
                }
                assert(s@.take(i + 1).drop_last() =~= s@.take(i as int));
                assert(out@ =~= start + literal_chars(s@.take(i + 1)));
                i += 1;
            }
            assert(s@.take(i as int) =~= s@);
            push_str(out, ")");
            assert(out@ =~= old(out)@ + string_bytes(s@, fmt));
        },
    }
}

proof fn lemma_pow2_mono(a: nat, b: nat)
    requires
        a <= b,
    ensures
        0 < pow2(a) <= pow2(b),
    decreases b,
{
    if b > 0 {
        if a == b {
            lemma_pow2_mono((a - 1) as nat, (b - 1) as nat);
        } else {
            lemma_pow2_mono(a, (b - 1) as nat);
        }
    }
}

proof fn lemma_pow2_23()
    ensures
        pow2(23) == 0x80_0000,
{
    reveal_with_fuel(pow2, 24);
}

/// The magnitude and whether it lies above every `u64`, where the real is
/// finite and integral.
fn magnitude(bits: u32) -> (r: Option<(u64, bool)>)
    ensures
        match integral_magnitude(bits) {
            Some(m) => r matches Some((v, big)) && (if big { m >= 0x1_0000_0000_0000_0000 } else { v == m }),
            None => r is None,
        },
{
    proof {
        lemma_pow2_23();
    }
    let exponent: u32 = (bits / 0x80_0000) % 256;
    let fraction: u32 = bits % 0x80_0000;
    let mantissa: u32 = 0x80_0000 + fraction;
    if exponent == 255 {
        return None;
    }
    if exponent == 0 {
        return if fraction == 0 { Some((0, false)) } else { None };
    }
    if exponent >= 150 {
        let shift: u32 = exponent - 150;
        let mut m: u64 = mantissa as u64;
        let mut big: bool = false;
        let mut k: u32 = 0;
        assert(mantissa as nat * pow2(0) == mantissa) by {
            assert(pow2(0) == 1);
        }
        while k < shift
            invariant
                k <= shift,
                !big ==> m == mantissa as nat * pow2(k as nat),
                big ==> mantissa as nat * pow2(k as nat) >= 0x1_0000_0000_0000_0000,
            decreases shift - k,
        {
            proof {
                let p = pow2(k as nat) as int;
                assert(mantissa as int * (2 * p) == 2 * (mantissa as int * p)) by (nonlinear_arith);
            }
            if !big {
                if m >= 0x8000_0000_0000_0000 {
                    big = true;
                } else {
                    m = m * 2;
                }
            }
            k += 1;
        }
        return Some((m, big));
    }
    if exponent < 127 {
        return None;
    }
    let shift: u32 = 150 - exponent;
    let mut p: u32 = 1;
    let mut k: u32 = 0;
    while k < shift
        invariant
            k <= shift <= 23,
            p == pow2(k as nat),
        decreases shift - k,
    {
        proof {
            lemma_pow2_23();
            lemma_pow2_mono((k + 1) as nat, 23);
        }
        p = p * 2;
        k += 1;
    }
    proof {
        lemma_pow2_mono(0, shift as nat);
    }
    if mantissa % p == 0 {
        Some(((mantissa / p) as u64, false))
    } else {
        None
    }
}

/// Writes a real without scientific notation (PDF forbids it).
pub fn fmt_real(out: &mut Vec<u8>, r: &Real)
    ensures
        final(out)@ == old(out)@ + real_bytes(r.bits, r.text@),
{
    match magnitude(r.bits) {
        Some((m, big)) => {
            let n: i64 = if r.bits >= 0x8000_0000 {
                if big || m >= 0x8000_0000_0000_0000 {
                    i64::MIN
                } else {
                    -(m as i64)
                }
            } else {
                if big || m >= 0x8000_0000_0000_0000 {
                    i64::MAX
                } else {
                    m as i64
                }
            };
            push_int(out, n);
        },
        None => push_str(out, r.text.as_str()),
    }
}

/// Writes an object.
pub fn write_object(out: &mut Vec<u8>, obj: &Object)
    ensures
        final(out)@ == old(out)@ + object_bytes(obj@),
    decreases obj,
{
    match obj {
        Object::Null => push_str(out, "null"),
        Object::Boolean(b) => {
            if *b {
                push_str(out, "true")
            } else {
                push_str(out, "false")
            }
        },
        Object::Integer(i) => push_int(out, *i),
        Object::Real(r) => fmt_real(out, r),
        Object::Name(n) => write_name(out, n),
        Object::String(s, fmt) => write_string(out, s, *fmt),
        Object::Reference(id) => {
            push_dec(out, id.0 as u64);
            push_str(out, " ");
            push_dec(out, id.1 as u64);
            push_str(out, " R");
            assert(out@ =~= old(out)@ + reference_bytes(*id));
        },
        Object::Array(a) => {
            push_str(out, "[");
            let ghost start = out@;
            proof {
                lemma_objs(a@);
            }
            let mut i: usize = 0;
            while i < a.len()
                invariant
                    i <= a.len(),
                    *obj == Object::Array(*a),
                    objs(a@).len() == a@.len(),
                    forall|k: int| 0 <= k < a@.len() ==> #[trigger] objs(a@)[k] == a@[k]@,
                    out@ == start + elements_bytes(objs(a@).take(i as int)),
                decreases a.len() - i,
            {
                if i > 0 {
                    push_str(out, " ");
                }
                assert(decreases_to!(*obj => obj->Array_0));
                assert(decreases_to!(a@ => a@[i as int]));
                write_object(out, &a[i]);
                proof {
                    let t = objs(a@).take(i + 1);
                    assert(t.drop_last() =~= objs(a@).take(i as int));
                    assert(t.last() == a@[i as int]@);
                    assert(out@ =~= start + elements_bytes(t));
                }
                i += 1;
            }
            assert(objs(a@).take(i as int) =~= objs(a@));
            push_str(out, "]");
            assert(out@ =~= old(out)@ + object_bytes(obj@));
        },
        Object::Dictionary(d) => {
            assert(decreases_to!(*obj => obj->Dictionary_0));
            write_dict(out, d)
        },
        Object::Stream(s) => {
            assert(decreases_to!(*obj => obj->Stream_0));
            write_stream(out, s)
        },
    }
}

/// Writes a dictionary.
pub fn write_dict(out: &mut Vec<u8>, d: &Dictionary)
    ensures
        final(out)@ == old(out)@ + object_bytes(Obj::Dictionary(d@)),
    decreases d,
{
    push_str(out, "<< ");
    let ghost start = out@;
    proof {
        lemma_pairs(d.entries@);
        lemma_written(d@);
    }
    let mut i: usize = 0;
    while i < d.entries.len()
        invariant
            i <= d.entries.len(),
            d@.len() == d.entries@.len(),
            forall|k: int| 0 <= k < d.entries@.len() ==> (#[trigger] d@[k]).0 == d.entries@[k].0@,
            forall|k: int| 0 <= k < d.entries@.len() ==> (#[trigger] d@[k]).1 == d.entries@[k].1@,
            written(d@).len() == d@.len(),
            forall|k: int| 0 <= k < d@.len() ==> (#[trigger] written(d@)[k]) == (d@[k].0, object_bytes(d@[k].1)),
            out@ == start + entries_bytes(written(d@).take(i as int)),
        decreases d.entries.len() - i,
    {
        assert(decreases_to!(*d => d.entries));
        assert(decreases_to!(d.entries@ => d.entries@[i as int]));
        assert(decreases_to!(d.entries@[i as int] => d.entries@[i as int].1));
        write_name(out, &d.entries[i].0);
        push_str(out, " ");
        write_object(out, &d.entries[i].1);
        push_str(out, " ");
        proof {
            let t = written(d@).take(i + 1);
            assert(t.drop_last() =~= written(d@).take(i as int));
            assert(t.last() == (d@[i as int].0, object_bytes(d@[i as int].1)));
            assert(out@ =~= start + entries_bytes(t));
        }
        i += 1;
    }
    assert(written(d@).take(i as int) =~= written(d@));
    push_str(out, ">>");
    assert(out@ =~= old(out)@ + object_bytes(Obj::Dictionary(d@)));
}

/// Writes a stream; its `/Length` is the number of its bytes.
pub fn write_stream(out: &mut Vec<u8>, s: &Stream)
    ensures
        final(out)@ == old(out)@ + object_bytes(Obj::Stream(s.dict@, s.content@)),
    decreases s,
{
    let d: &Dictionary = &s.dict;
    let len: u64 = s.content.len() as u64;
    let at: Option<usize> = d.position(raw("Length"));
    push_str(out, "<< ");
    let ghost start = out@;
    let ghost w = put(written(d@), lit("Length"), dec(len as nat));
    proof {
        lemma_pairs(d.entries@);
        lemma_written(d@);
        lemma_same_index(d@, lit("Length"), 0);
        lemma_key_index(d@, lit("Length"), 0);
    }
    let mut i: usize = 0;
    while i < d.entries.len()
        invariant
            *d == s.dict,
            i <= d.entries.len(),
            d@.len() == d.entries@.len(),
            forall|k: int| 0 <= k < d.entries@.len() ==> (#[trigger] d@[k]).0 == d.entries@[k].0@,
            forall|k: int| 0 <= k < d.entries@.len() ==> (#[trigger] d@[k]).1 == d.entries@[k].1@,
            w.len() >= d@.len(),
            forall|k: int| 0 <= k < d@.len() ==> (#[trigger] w[k]) == (
                d@[k].0,
                if at is Some && at->0 == k { dec(len as nat) } else { object_bytes(d@[k].1) },
            ),
            out@ == start + entries_bytes(w.take(i as int)),
        decreases d.entries.len() - i,
    {
        write_name(out, &d.entries[i].0);
        push_str(out, " ");
        let here: bool = match at {
            Some(k) => k == i,
            None => false,
        };
        if here {
            push_dec(out, len);
        } else {
            assert(decreases_to!(*s => s.dict));
            assert(decreases_to!(s.dict => s.dict.entries));
            assert(decreases_to!(d.entries@ => d.entries@[i as int]));
            assert(decreases_to!(d.entries@[i as int] => d.entries@[i as int].1));
            write_object(out, &d.entries[i].1);
        }
        push_str(out, " ");
        proof {
            let t = w.take(i + 1);
            assert(t.drop_last() =~= w.take(i as int));
            assert(t.last() == w[i as int]);
            assert(out@ =~= start + entries_bytes(t));
        }
        i += 1;
    }
    if at.is_none() {
        let ghost before = out@;
        write_name(out, raw("Length"));
        push_str(out, " ");
        push_dec(out, len);
        push_str(out, " ");
        assert(w.drop_last() =~= w.take(i as int));
        assert(w.last() == (lit("Length"), dec(len as nat)));
        assert(out@ =~= start + entries_bytes(w));
    } else {
        assert(w.take(i as int) =~= w);
    }
    push_str(out, ">>");
    push_str(out, "\nstream\n");
    out.extend_from_slice(&s.content);
    push_str(out, "\nendstream");
    assert(out@ =~= old(out)@ + object_bytes(Obj::Stream(s.dict@, s.content@)));
}

proof fn lemma_same_index(d: Dict, k: Seq<u8>, from: int)
    requires
        0 <= from,
    ensures
        key_index(written(d), k, from) == key_index(d, k, from),
    decreases d.len() - from,
{
    lemma_written(d);
    if from < d.len() {
        lemma_same_index(d, k, from + 1);
    }
}

} // verus!
