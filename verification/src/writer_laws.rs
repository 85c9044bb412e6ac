//! What is written of a name, a string or a number reads back.
use vstd::prelude::*;

use crate::object::StringFormat;
use crate::util::{dec_int, hex_digit_upper, hex_value, law_hex_round_trip, lemma_lit, lit, unhex};
use crate::writer::{
    integral_magnitude, is_regular, literal_char, literal_chars, name_bytes, name_char, name_chars, pow2, real_bytes, string_bytes,
};

verus! {

/// A written name with each `#` and its two hexadecimal digits replaced by the byte that
/// they name.
pub open spec fn unescaped(e: Seq<u8>) -> Seq<u8>
    decreases e.len(),
{
    if e.len() == 0 {
        Seq::empty()
    } else if e[0] == 0x23 && e.len() >= 3 && hex_value(e[1]) is Some && hex_value(e[2]) is Some {
        seq![(hex_value(e[1])->0 * 16 + hex_value(e[2])->0) as u8] + unescaped(e.skip(3))
    } else {
        seq![e[0]] + unescaped(e.skip(1))
    }
}

proof fn lemma_name_char(b: u8, rest: Seq<u8>)
    ensures
        unescaped(name_char(b) + rest) == seq![b] + unescaped(rest),
        forall|i: int| 0 <= i < name_char(b).len() ==> is_regular(#[trigger] name_char(b)[i]) || name_char(b)[i] == 0x23,
{
    let e = name_char(b) + rest;
    if is_regular(b) {
        assert(e.skip(1) =~= rest);
    } else {
        let (h, l) = (b as nat / 16, b as nat % 16);
        assert(h < 16 && l < 16 && h * 16 + l == b);
        assert(e[0] == 0x23 && e[1] == hex_digit_upper(h) && e[2] == hex_digit_upper(l));
        assert(hex_value(hex_digit_upper(h)) == Some(h as int));
        assert(hex_value(hex_digit_upper(l)) == Some(l as int));
        assert(e.skip(3) =~= rest);
    }
}

proof fn lemma_name_chars_front(n: Seq<u8>)
    requires
        n.len() > 0,
    ensures
        name_chars(n) == name_char(n[0]) + name_chars(n.skip(1)),
    decreases n.len(),
{
    let t = n.drop_last();
    if t.len() == 0 {
        assert(n.skip(1) =~= Seq::empty());
        assert(t =~= Seq::empty());
        assert(name_chars(n) =~= name_char(n[0]) + name_chars(n.skip(1)));
    } else {
        lemma_name_chars_front(t);
        assert(n.skip(1).drop_last() =~= t.skip(1));
        assert(name_chars(n) =~= name_char(n[0]) + name_chars(n.skip(1)));
    }
}

/// A written name consists of a slash and of regular characters and `#`, none of which
/// ends a name, and gives the name back.
pub proof fn law_name_reads_back(n: Seq<u8>)
    ensures
        name_bytes(n) == seq![0x2fu8] + name_chars(n),
        forall|i: int|
            0 <= i < name_chars(n).len() ==> is_regular(#[trigger] name_chars(n)[i]) || name_chars(n)[i] == 0x23,
        unescaped(name_chars(n)) == n,
    decreases n.len(),
{
    reveal_strlit("/");
    lemma_lit("/");
    assert(lit("/") =~= seq![0x2fu8]);
    if n.len() == 0 {
        assert(unescaped(name_chars(n)) =~= n);
    } else {
        let rest = n.skip(1);
        law_name_reads_back(rest);
        lemma_name_chars_front(n);
        lemma_name_char(n[0], name_chars(rest));
        assert(unescaped(name_chars(n)) =~= n);
    }
}

/// Two different names are never written alike.
pub proof fn law_names_are_written_apart(a: Seq<u8>, b: Seq<u8>)
    requires
        name_bytes(a) == name_bytes(b),
    ensures
        a == b,
{
    law_name_reads_back(a);
    law_name_reads_back(b);
    assert(name_bytes(a).skip(1) =~= name_chars(a));
    assert(name_bytes(b).skip(1) =~= name_chars(b));
}

/// What a literal string stands for: a backslash and the character behind it are a line
/// feed, a carriage return or that character.
pub open spec fn unquoted(e: Seq<u8>) -> Seq<u8>
    decreases e.len(),
{
    if e.len() == 0 {
        Seq::empty()
    } else if e[0] == 0x5c && e.len() >= 2 {
        seq![
            if e[1] == 0x6e {
                0x0au8
            } else if e[1] == 0x72 {
                0x0du8
            } else {
                e[1]
            },
        ] + unquoted(e.skip(2))
    } else {
        seq![e[0]] + unquoted(e.skip(1))
    }
}

/// No bracket stands in the bytes without a backslash before it, no line end stands in them,
/// and they do not end in a backslash of their own.
pub open spec fn closed_off(e: Seq<u8>) -> bool
    decreases e.len(),
{
    e.len() == 0 || (if e[0] == 0x5c {
        e.len() >= 2 && e[1] != 0x0a && e[1] != 0x0d && closed_off(e.skip(2))
    } else {
        e[0] != 0x28 && e[0] != 0x29 && e[0] != 0x0a && e[0] != 0x0d && closed_off(e.skip(1))
    })
}

proof fn lemma_literal_char(b: u8, rest: Seq<u8>)
    ensures
        unquoted(literal_char(b) + rest) == seq![b] + unquoted(rest),
        closed_off(literal_char(b) + rest) <==> closed_off(rest),
{
    reveal_strlit("\\n");
    reveal_strlit("\\r");
    lemma_lit("\\n");
    lemma_lit("\\r");
    let e = literal_char(b) + rest;
    if literal_char(b).len() == 1 {
        assert(e[0] == b);
        assert(e.skip(1) =~= rest);
    } else {
        assert(e[0] == 0x5c);
        assert(e[1] == literal_char(b)[1]);
        assert(e.skip(2) =~= rest);
    }
}

proof fn lemma_literal_front(s: Seq<u8>)
    requires
        s.len() > 0,
    ensures
        literal_chars(s) == literal_char(s[0]) + literal_chars(s.skip(1)),
    decreases s.len(),
{
    let t = s.drop_last();
    if t.len() == 0 {
        assert(s.skip(1) =~= Seq::empty());
        assert(t =~= Seq::empty());
        assert(literal_chars(s) =~= literal_char(s[0]) + literal_chars(s.skip(1)));
    } else {
        lemma_literal_front(t);
        assert(s.skip(1).drop_last() =~= t.skip(1));
        assert(literal_chars(s) =~= literal_char(s[0]) + literal_chars(s.skip(1)));
    }
}

proof fn lemma_literal(s: Seq<u8>)
    ensures
        unquoted(literal_chars(s)) == s,
        closed_off(literal_chars(s)),
    decreases s.len(),
{
    if s.len() == 0 {
        assert(unquoted(literal_chars(s)) =~= s);
    } else {
        lemma_literal(s.skip(1));
        lemma_literal_front(s);
        lemma_literal_char(s[0], literal_chars(s.skip(1)));
        assert(unquoted(literal_chars(s)) =~= s);
    }
}

/// A written string stands in its brackets, which nothing inside closes, and gives its
/// bytes back, whichever way it is written.
pub proof fn law_string_reads_back(s: Seq<u8>) -> (r: (Seq<u8>, Seq<u8>))
    ensures
        string_bytes(s, StringFormat::Literal) == seq![0x28u8] + r.0 + seq![0x29u8],
        closed_off(r.0) && unquoted(r.0) == s,
        string_bytes(s, StringFormat::Hexadecimal) == seq![0x3cu8] + r.1 + seq![0x3eu8],
        unhex(r.1) == Some(s),
{
    reveal_strlit("(");
    reveal_strlit(")");
    reveal_strlit("<");
    reveal_strlit(">");
    lemma_lit("(");
    lemma_lit(")");
    lemma_lit("<");
    lemma_lit(">");
    assert(lit("(") =~= seq![0x28u8] && lit(")") =~= seq![0x29u8]);
    assert(lit("<") =~= seq![0x3cu8] && lit(">") =~= seq![0x3eu8]);
    lemma_literal(s);
    law_hex_round_trip(s);
    (literal_chars(s), crate::util::hex(s))
}

/// A real is written as a whole number exactly if its value is one: mantissa and exponent
/// give the number back, with its sign. Another is written in its own notation.
pub proof fn law_whole_reals(bits: u32, text: Seq<char>)
    ensures
        ({
            let e = (bits as nat / 0x80_0000) % 256;
            let mantissa = 0x80_0000 + bits as nat % 0x80_0000;
            let negative = bits >= 0x8000_0000;
            &&& 127 <= e < 150 ==> match integral_magnitude(bits) {
                Some(m) => m * pow2((150 - e) as nat) == mantissa && (m <= i64::MAX ==> real_bytes(bits, text) == dec_int(
                    if negative {
                        -(m as int)
                    } else {
                        m as int
                    },
                )),
                None => mantissa as int % pow2((150 - e) as nat) as int != 0 && real_bytes(bits, text) == crate::util::utf8(
                    text,
                ),
            }
            &&& 150 <= e < 255 ==> integral_magnitude(bits) == Some((mantissa * pow2((e - 150) as nat)) as nat)
            &&& bits == 0 ==> integral_magnitude(bits) == Some(0nat)
            &&& 1 <= e < 127 || e == 255 ==> integral_magnitude(bits) is None && real_bytes(bits, text)
                == crate::util::utf8(text)
        }),
{
    assert(pow2(23) == 0x80_0000) by {
        reveal_with_fuel(pow2, 24);
    }
    let e = (bits as nat / 0x80_0000) % 256;
    let mantissa = (0x80_0000 + bits as nat % 0x80_0000) as nat;
    if 127 <= e < 150 {
        let d = pow2((150 - e) as nat);
        lemma_pow2((150 - e) as nat);
        if mantissa % d == 0 {
            assert(mantissa / d * d == mantissa) by (nonlinear_arith)
                requires
                    mantissa % d == 0,
                    d > 0,
            ;
        }
    }
}

proof fn lemma_pow2(n: nat)
    ensures
        pow2(n) > 0,
    decreases n,
{
    if n > 0 {
        lemma_pow2((n - 1) as nat);
    }
}

} // verus!
