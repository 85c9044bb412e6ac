//! Byte strings in lexicographic order, each once.
use vstd::prelude::*;

use crate::util::{blobs, to_vec};

verus! {

/// Lexicographic order of byte strings.
pub open spec fn precedes(a: Seq<u8>, b: Seq<u8>) -> bool
    decreases a.len(),
{
    if b.len() == 0 {
        false
    } else if a.len() == 0 {
        true
    } else if a[0] != b[0] {
        a[0] < b[0]
    } else {
        precedes(a.drop_first(), b.drop_first())
    }
}

/// Every byte string of the list precedes those behind it.
pub open spec fn increasing(s: Seq<Seq<u8>>) -> bool {
    forall|i: int, j: int| 0 <= i < j < s.len() ==> precedes(#[trigger] s[i], #[trigger] s[j])
}

/// The list with `x` among its elements, in its place.
pub open spec fn insert_sorted(s: Seq<Seq<u8>>, x: Seq<u8>) -> Seq<Seq<u8>>
    decreases s.len(),
{
    if s.len() == 0 || precedes(s.last(), x) {
        s.push(x)
    } else if s.last() == x {
        s
    } else {
        insert_sorted(s.drop_last(), x).push(s.last())
    }
}

/// The byte strings of a list in lexicographic order, each once.
pub open spec fn sorted(s: Seq<Seq<u8>>) -> Seq<Seq<u8>>
    decreases s.len(),
{
    if s.len() == 0 {
        Seq::empty()
    } else {
        insert_sorted(sorted(s.drop_last()), s.last())
    }
}

proof fn lemma_total(a: Seq<u8>, b: Seq<u8>)
    ensures
        precedes(a, b) || precedes(b, a) || a == b,
        !(precedes(a, b) && precedes(b, a)),
        precedes(a, b) ==> a != b,
    decreases a.len(),
{
    if a.len() > 0 && b.len() > 0 && a[0] == b[0] {
        lemma_total(a.drop_first(), b.drop_first());
        if a.drop_first() == b.drop_first() {
            assert(a =~= seq![a[0]] + a.drop_first());
            assert(b =~= seq![b[0]] + b.drop_first());
            assert(a == b);
        }
    } else if a.len() == 0 && b.len() == 0 {
        assert(a =~= b);
    }
}

proof fn lemma_transitive(a: Seq<u8>, b: Seq<u8>, c: Seq<u8>)
    requires
        precedes(a, b),
        precedes(b, c),
    ensures
        precedes(a, c),
    decreases a.len(),
{
    if a.len() > 0 && a[0] == b[0] && b[0] == c[0] {
        lemma_transitive(a.drop_first(), b.drop_first(), c.drop_first());
    }
}

proof fn lemma_insert(s: Seq<Seq<u8>>, x: Seq<u8>)
    requires
        increasing(s),
    ensures
        increasing(insert_sorted(s, x)),
        forall|y: Seq<u8>| insert_sorted(s, x).contains(y) <==> s.contains(y) || y == x,
    decreases s.len(),
{
    let r = insert_sorted(s, x);
    if s.len() == 0 || precedes(s.last(), x) {
        assert(r[s.len() as int] == x);
        assert forall|y: Seq<u8>| r.contains(y) <==> s.contains(y) || y == x by {
            if s.contains(y) {
                let i = choose|i: int| 0 <= i < s.len() && s[i] == y;
                assert(r[i] == y);
            }
            if r.contains(y) {
                let i = choose|i: int| 0 <= i < r.len() && r[i] == y;
                if i < s.len() {
                    assert(s[i] == y);
                }
            }
        }
        assert forall|i: int, j: int| 0 <= i < j < r.len() implies precedes(#[trigger] r[i], #[trigger] r[j]) by {
            if j == s.len() && i < s.len() - 1 {
                lemma_transitive(s[i], s[s.len() - 1], x);
            }
        }
    } else if s.last() == x {
        assert(s[s.len() - 1] == x);
    } else {
        let t = s.drop_last();
        lemma_insert(t, x);
        let q = insert_sorted(t, x);
        lemma_total(s.last(), x);
        assert forall|y: Seq<u8>| r.contains(y) <==> s.contains(y) || y == x by {
            if s.contains(y) {
                let i = choose|i: int| 0 <= i < s.len() && s[i] == y;
                if i < t.len() {
                    assert(t[i] == y);
                    assert(t.contains(y));
                    assert(q.contains(y));
                    let k = choose|k: int| 0 <= k < q.len() && q[k] == y;
                    assert(r[k] == y);
                } else {
                    assert(r[q.len() as int] == y);
                }
            }
            if y == x {
                assert(q.contains(x));
                let k = choose|k: int| 0 <= k < q.len() && q[k] == x;
                assert(r[k] == x);
            }
            if r.contains(y) {
                let i = choose|i: int| 0 <= i < r.len() && r[i] == y;
                if i < q.len() {
                    assert(q[i] == y);
                    assert(q.contains(y));
                    if t.contains(y) {
                        let k = choose|k: int| 0 <= k < t.len() && t[k] == y;
                        assert(s[k] == y);
                    }
                } else {
                    assert(s[s.len() - 1] == y);
                }
            }
        }
        assert forall|i: int, j: int| 0 <= i < j < r.len() implies precedes(#[trigger] r[i], #[trigger] r[j]) by {
            assert(r[i] == q[i]);
            if j == q.len() {
                assert(q.contains(q[i]));
                if q[i] != x {
                    assert(t.contains(q[i]));
                    let k = choose|k: int| 0 <= k < t.len() && t[k] == q[i];
                    assert(s[k] == q[i]);
                    assert(precedes(s[k], s[s.len() - 1]));
                }
            } else {
                assert(r[j] == q[j]);
            }
        }
    }
}

/// Sorting puts the byte strings in lexicographic order, and keeps exactly those of
/// the list, each once.
pub proof fn law_sorted(s: Seq<Seq<u8>>)
    ensures
        increasing(sorted(s)),
        forall|x: Seq<u8>| sorted(s).contains(x) <==> s.contains(x),
    decreases s.len(),
{
    if s.len() > 0 {
        let t = s.drop_last();
        law_sorted(t);
        lemma_insert(sorted(t), s.last());
        assert forall|x: Seq<u8>| sorted(s).contains(x) <==> s.contains(x) by {
            if s.contains(x) {
                let i = choose|i: int| 0 <= i < s.len() && s[i] == x;
                if i < t.len() {
                    assert(t[i] == x);
                    assert(t.contains(x));
                }
            }
            if t.contains(x) {
                let i = choose|i: int| 0 <= i < t.len() && t[i] == x;
                assert(s[i] == x);
            }
            assert(s[s.len() - 1] == s.last());
        }
    }
}

fn is_before(a: &[u8], b: &[u8]) -> (r: bool)
    ensures
        r == precedes(a@, b@),
{
    let mut i: usize = 0;
    assert(a@.skip(0) =~= a@);
    assert(b@.skip(0) =~= b@);
    loop
        invariant
            i <= a.len(),
            i <= b.len(),
            precedes(a@, b@) == precedes(a@.skip(i as int), b@.skip(i as int)),
        decreases a.len() - i,
    {
        if i == b.len() {
            return false;
        }
        if i == a.len() {
            return true;
        }
        assert(a@.skip(i as int)[0] == a@[i as int]);
        assert(b@.skip(i as int)[0] == b@[i as int]);
        if a[i] != b[i] {
            return a[i] < b[i];
        }
        assert(a@.skip(i as int).drop_first() =~= a@.skip(i + 1));
        assert(b@.skip(i as int).drop_first() =~= b@.skip(i + 1));
        i += 1;
    }
}

/// Puts a byte string in its place in a sorted list, where it is not there yet.
fn insert_blob(v: &mut Vec<Vec<u8>>, x: Vec<u8>)
    ensures
        blobs(final(v)@) == insert_sorted(blobs(old(v)@), x@),
{
    let ghost s = blobs(v@);
    let mut k: usize = v.len();
    assert(s.take(k as int) =~= s);
    assert(s.skip(k as int) =~= Seq::empty());
    while k > 0 && !is_before(&v[k - 1], &x)
        invariant
            k <= v.len(),
            s == blobs(v@),
            insert_sorted(s, x@) =~= insert_sorted(s.take(k as int), x@) + s.skip(k as int),
        decreases k,
    {
        assert(s[k - 1] == v@[k - 1]@);
        proof {
            let t = s.take(k as int);
            assert(t.last() == s[k - 1]);
            assert(t.drop_last() =~= s.take(k - 1));
        }
        if crate::util::bytes_eq(&v[k - 1], &x) {
            assert(s.take(k as int) + s.skip(k as int) =~= s);
            return ;
        }
        proof {
            assert(insert_sorted(s.take(k as int), x@) == insert_sorted(s.take(k - 1), x@).push(s[k - 1]));
            assert(insert_sorted(s.take(k - 1), x@).push(s[k - 1]) + s.skip(k as int) =~= insert_sorted(
                s.take(k - 1),
                x@,
            ) + s.skip(k - 1));
        }
        k -= 1;
    }
    proof {
        if k > 0 {
            assert(s.take(k as int).last() == s[k - 1]);
            assert(s[k - 1] == v@[k - 1]@);
        }
        assert(insert_sorted(s.take(k as int), x@) == s.take(k as int).push(x@));
    }
    v.insert(k, x);
    assert(blobs(v@) =~= s.take(k as int).push(x@) + s.skip(k as int));
}

/// The byte strings of a list in lexicographic order, each once.
pub fn sort_blobs(v: &Vec<Vec<u8>>) -> (r: Vec<Vec<u8>>)
    ensures
        blobs(r@) == sorted(blobs(v@)),
{
    let mut out: Vec<Vec<u8>> = Vec::new();
    let ghost s = blobs(v@);
    let mut i: usize = 0;
    proof {
        assert(s.take(0) =~= Seq::empty());
        assert(blobs(out@) =~= Seq::empty());
    }
    while i < v.len()
        invariant
            i <= v.len(),
            s == blobs(v@),
            blobs(out@) == sorted(s.take(i as int)),
        decreases v.len() - i,
    {
        proof {
            let t = s.take(i + 1);
            assert(t.drop_last() =~= s.take(i as int));
            assert(t.last() == v@[i as int]@);
        }
        insert_blob(&mut out, to_vec(&v[i]));
        i += 1;
    }
    assert(s.take(i as int) =~= s);
    out
}

} // verus!
