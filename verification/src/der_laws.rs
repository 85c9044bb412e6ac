//! What the reader of DER values reads: exactly the values that DER writes.
use vstd::prelude::*;

use crate::der_reader::{length_at, value_at};
use crate::util::be_value;

verus! {

/// A number in base 256, the most significant byte first, without leading zeros.
pub open spec fn number_bytes(n: nat) -> Seq<u8>
    decreases n,
{
    if n == 0 {
        Seq::empty()
    } else {
        number_bytes(n / 256).push((n % 256) as u8)
    }
}

/// The length field of DER: one byte for a length below 128, otherwise the number of the
/// bytes that follow, with the top bit set, and the length in as few bytes as it takes.
pub open spec fn length_field(n: nat) -> Seq<u8> {
    if n < 0x80 {
        seq![n as u8]
    } else {
        seq![(0x80 + number_bytes(n).len()) as u8] + number_bytes(n)
    }
}

/// A DER value: tag, length, content.
#[verifier::opaque]
pub open spec fn der_value(tag: u8, content: Seq<u8>) -> Seq<u8> {
    seq![tag] + length_field(content.len()) + content
}

/// The value stands in the bytes from index `i` up to `j`.
pub open spec fn stands_at(v: Seq<u8>, s: Seq<u8>, i: int, j: int) -> bool {
    0 <= i <= j <= s.len() && s.subrange(i, j) == v
}

proof fn lemma_number(n: nat)
    ensures
        be_value(number_bytes(n)) == n,
        n > 0 ==> number_bytes(n).len() > 0 && number_bytes(n)[0] != 0,
        n == 0 ==> number_bytes(n).len() == 0,
        n < 0x100 ==> number_bytes(n).len() <= 1,
        n < 0x1_0000 ==> number_bytes(n).len() <= 2,
        n < 0x100_0000 ==> number_bytes(n).len() <= 3,
        n < 0x1_0000_0000 ==> number_bytes(n).len() <= 4,
    decreases n,
{
    if n > 0 {
        lemma_number(n / 256);
        assert(number_bytes(n).drop_last() =~= number_bytes(n / 256));
        assert(n == n / 256 * 256 + n % 256);
        if n / 256 > 0 {
            assert(number_bytes(n)[0] == number_bytes(n / 256)[0]);
        }
    }
}

proof fn lemma_number_back(b: Seq<u8>)
    requires
        b.len() > 0 ==> b[0] != 0,
    ensures
        number_bytes(be_value(b)) == b,
        b.len() > 0 ==> be_value(b) > 0,
        b.len() <= 4 ==> be_value(b) < 0x1_0000_0000,
        b.len() <= 3 ==> be_value(b) < 0x100_0000,
        b.len() <= 2 ==> be_value(b) < 0x1_0000,
        b.len() <= 1 ==> be_value(b) < 0x100,
        b.len() == 0 ==> be_value(b) == 0,
    decreases b.len(),
{
    if b.len() > 0 {
        let t = b.drop_last();
        lemma_number_back(t);
        let (n, m) = (be_value(b), be_value(t));
        assert(n == m * 256 + b.last());
        assert(n / 256 == m && n % 256 == b.last()) by (nonlinear_arith)
            requires
                n == m * 256 + b.last(),
                0 <= b.last() < 256,
        ;
        assert(number_bytes(n) =~= b);
    } else {
        assert(b =~= Seq::<u8>::empty());
    }
}

/// The parts of a DER value, and what its length field says.
pub proof fn lemma_der_parts(tag: u8, content: Seq<u8>)
    ensures
        ({
            let (f, b) = (length_field(content.len()), number_bytes(content.len()));
            &&& der_value(tag, content).len() == 1 + f.len() + content.len()
            &&& der_value(tag, content)[0] == tag
            &&& forall|q: int| 0 <= q < f.len() ==> #[trigger] der_value(tag, content)[1 + q] == f[q]
            &&& be_value(b) == content.len()
            &&& content.len() < 0x80 ==> f.len() == 1 && f[0] == content.len()
            &&& 0x80 <= content.len() < 0x1_0000_0000 ==> 1 <= b.len() <= 4 && f.len() == 1 + b.len() && f[0] == 0x80
                + b.len()
        }),
{
    reveal(der_value);
    lemma_number(content.len());
}

/// A DER value is longer than its content.
pub proof fn lemma_longer(tag: u8, content: Seq<u8>)
    ensures
        der_value(tag, content).len() > content.len(),
{
    reveal(der_value);
}

/// A DER value of less than four gigabytes is read back wherever it stands: its tag, and
/// the place of its content.
pub proof fn law_value_reads_back(s: Seq<u8>, i: int, j: int, tag: u8, content: Seq<u8>)
    requires
        stands_at(der_value(tag, content), s, i, j),
        content.len() < 0x1_0000_0000,
    ensures
        value_at(s, i) == Some((tag, j - content.len(), j)),
        i < j - content.len(),
        s.subrange(j - content.len(), j) == content,
{
    reveal(der_value);
    let v = der_value(tag, content);
    let n = content.len();
    let f = length_field(n);
    lemma_number(n);
    assert(v.len() == 1 + f.len() + n);
    assert forall|k: int| 0 <= k < v.len() implies #[trigger] s[i + k] == v[k] by {
        assert(s.subrange(i, j)[k] == s[i + k]);
    }
    assert(s[i] == v[0] && s[i + 1] == v[1]);
    assert(v[1] == f[0]);
    assert(s.subrange(j - n, j) =~= content) by {
        assert forall|k: int| 0 <= k < n implies s[j - n + k] == content[k] by {
            assert(s[i + (1 + f.len() + k)] == v[1 + f.len() + k]);
        }
    }
    if n >= 0x80 {
        let b = number_bytes(n);
        let k = b.len();
        assert(f[0] == (0x80 + k) as u8);
        assert(s.subrange(i + 2, i + 2 + k) =~= b) by {
            assert forall|q: int| 0 <= q < k implies s[i + 2 + q] == b[q] by {
                assert(s[i + (2 + q)] == v[2 + q]);
                assert(v[2 + q] == f[1 + q]);
            }
        }
        assert(s[i + 2] == b[0]) by {
            assert(s.subrange(i + 2, i + 2 + k)[0] == s[i + 2]);
        }
    }
}

/// What is read is a DER value: the bytes are its tag, the shortest length field and its
/// content.
pub proof fn law_value_is_der(s: Seq<u8>, i: int)
    ensures
        value_at(s, i) matches Some((tag, a, b)) ==> 0 <= i < a <= b <= s.len() && b - a < 0x1_0000_0000 && stands_at(
            der_value(tag, s.subrange(a, b)),
            s,
            i,
            b,
        ),
{
    reveal(der_value);
    if let Some((tag, a, b)) = value_at(s, i) {
        let (k, n) = length_at(s, i + 1)->0;
        let content = s.subrange(a, b);
        if s[i + 1] >= 0x80 {
            let q = s[i + 1] - 0x80;
            let bytes = s.subrange(i + 2, i + 2 + q);
            assert(bytes[0] == s[i + 2]);
            lemma_number_back(bytes);
            assert(length_field(n as nat) =~= seq![s[i + 1]] + bytes);
            assert(s.subrange(i, b) =~= der_value(tag, content));
        } else {
            assert(s.subrange(i, b) =~= der_value(tag, content));
        }
    }
}

} // verus!
