//! What path construction promises: a leaf is trusted exactly when there is a
//! path that satisfies every rule.
use vstd::prelude::*;

use crate::certificate::{certificate_of, certificates_of, CertView};
use crate::revocation::{crl_lists, crl_of, crls_of, CrlView};
use crate::trust::{
    chain_verdict, extended, finalized, first_of, intermediate_fits, is_among, is_valid_at, link_holds,
    may_issue, root_fits, try_pool, try_roots, ChainView, Context, StoreView, MAX_DEPTH,
};
use crate::verify::ders_trusted;

verus! {

/// Certificate `i` of a chain is an intermediate: it comes from the pool, occurs
/// once, may issue certificates with the intermediates below it, and issued the
/// certificate before it without revoking it.
pub open spec fn is_intermediate(chain: Seq<CertView>, i: int, cx: Context) -> bool {
    &&& cx.pool.contains(chain[i])
    &&& !is_among(chain[i], chain.take(i))
    &&& may_issue(chain[i], i - 1)
    &&& link_holds(chain[i - 1], chain[i], cx)
    &&& i <= MAX_DEPTH
}

/// The certificates of a chain below the last one are valid, no roots themselves,
/// and issued by one another.
pub open spec fn is_prefix(chain: Seq<CertView>, cx: Context) -> bool {
    &&& chain.len() >= 1
    &&& forall|i: int|
        0 <= i < chain.len() - 1 ==> is_valid_at(#[trigger] chain[i], cx.at) && !is_among(chain[i], cx.store.roots)
    &&& forall|i: int| 1 <= i < chain.len() - 1 ==> #[trigger] is_intermediate(chain, i, cx)
}

/// The last certificate of a chain is a root of the store above the others, or a
/// certificate of the chain that is itself a root.
pub open spec fn ends_in_root(chain: Seq<CertView>, cx: Context) -> bool {
    let n = chain.len() as int;
    ||| n >= 2 && n - 2 <= MAX_DEPTH && cx.store.roots.contains(chain[n - 1]) && link_holds(
        chain[n - 2],
        chain[n - 1],
        cx,
    )
    ||| (n == 1 || is_intermediate(chain, n - 1, cx)) && is_among(chain[n - 1], cx.store.roots)
}

/// A chain `[leaf, intermediate..., root]` that satisfies every rule.
pub open spec fn is_trusted_chain(chain: Seq<CertView>, cx: Context) -> bool {
    &&& is_prefix(chain, cx)
    &&& is_valid_at(chain.last(), cx.at)
    &&& ends_in_root(chain, cx)
    &&& finalized(chain, cx.store.required_policy).trusted
}

/// A path that can still be extended.
spec fn is_open(path: Seq<CertView>, cx: Context) -> bool {
    is_prefix(path, cx) && (path.len() >= 2 ==> is_intermediate(path, path.len() - 1, cx))
}

proof fn lemma_roots_sound(path: Seq<CertView>, cx: Context, k: int, pending: Option<ChainView>) -> (root: CertView)
    requires
        0 <= k,
        pending matches Some(p) ==> !p.trusted,
        try_roots(path, cx, k, pending) matches Some(r) && r.trusted,
    ensures
        cx.store.roots.contains(root),
        root_fits(path, root, cx),
        finalized(path.push(root), cx.store.required_policy).trusted,
    decreases cx.store.roots.len() - k,
{
    if k >= cx.store.roots.len() {
        cx.store.roots[0]
    } else {
        let root = cx.store.roots[k];
        if !root_fits(path, root, cx) {
            lemma_roots_sound(path, cx, k + 1, pending)
        } else {
            let result = finalized(path.push(root), cx.store.required_policy);
            if result.trusted {
                root
            } else {
                lemma_roots_sound(path, cx, k + 1, first_of(pending, result))
            }
        }
    }
}

proof fn lemma_roots_complete(path: Seq<CertView>, cx: Context, k: int, j: int, pending: Option<ChainView>)
    requires
        0 <= k <= j < cx.store.roots.len(),
        root_fits(path, cx.store.roots[j], cx),
        finalized(path.push(cx.store.roots[j]), cx.store.required_policy).trusted,
    ensures
        try_roots(path, cx, k, pending) matches Some(r) && r.trusted,
    decreases j - k,
{
    if k < j {
        let root = cx.store.roots[k];
        if !root_fits(path, root, cx) {
            lemma_roots_complete(path, cx, k + 1, j, pending);
        } else {
            let result = finalized(path.push(root), cx.store.required_policy);
            if !result.trusted {
                lemma_roots_complete(path, cx, k + 1, j, first_of(pending, result));
            }
        }
    }
}

proof fn lemma_open_push(path: Seq<CertView>, next: CertView, cx: Context, k: int)
    requires
        is_open(path, cx),
        is_valid_at(path.last(), cx.at),
        !is_among(path.last(), cx.store.roots),
        0 <= k < cx.pool.len(),
        next == cx.pool[k],
        intermediate_fits(path, next, cx, path.len() - 1),
        path.len() - 1 < MAX_DEPTH,
    ensures
        is_open(path.push(next), cx),
{
    let q = path.push(next);
    let n = path.len() as int;
    assert(q.take(n) =~= path);
    assert(cx.pool.contains(next));
    assert(q[n] == next && q[n - 1] == path.last());
    assert(is_intermediate(q, n, cx));
    assert forall|i: int| 0 <= i < q.len() - 1 implies is_valid_at(#[trigger] q[i], cx.at) && !is_among(
        q[i],
        cx.store.roots,
    ) by {
        assert(q[i] == path[i]);
        if i < n - 1 {
            assert(is_valid_at(path[i], cx.at));
        }
    }
    assert forall|i: int| 1 <= i < q.len() - 1 implies #[trigger] is_intermediate(q, i, cx) by {
        assert(is_intermediate(path, i, cx));
        assert(q.take(i) =~= path.take(i));
        assert(q[i] == path[i] && q[i - 1] == path[i - 1]);
    }
}

/// A chain that `path` is the beginning of.
spec fn completes(chain: Seq<CertView>, path: Seq<CertView>, cx: Context) -> bool {
    chain.len() >= path.len() && chain.take(path.len() as int) == path && is_trusted_chain(chain, cx)
}

proof fn lemma_extended_sound(path: Seq<CertView>, cx: Context, below: int) -> (chain: Seq<CertView>)
    requires
        is_open(path, cx),
        below == path.len() - 1,
        0 <= below <= MAX_DEPTH,
        extended(path, cx, below).trusted,
    ensures
        completes(chain, path, cx),
    decreases MAX_DEPTH - below, 1int, 0int,
{
    let current = path.last();
    let n = path.len() as int;
    if is_among(current, cx.store.roots) {
        assert(path.take(n) =~= path);
        path
    } else {
        let t = try_roots(path, cx, 0, None);
        if t matches Some(r) && r.trusted {
            let root = lemma_roots_sound(path, cx, 0, None);
            let chain = path.push(root);
            assert(chain.take(n) =~= path);
            assert forall|i: int| 0 <= i < chain.len() - 1 implies is_valid_at(#[trigger] chain[i], cx.at)
                && !is_among(chain[i], cx.store.roots) by {
                assert(chain[i] == path[i]);
                if i < n - 1 {
                    assert(is_valid_at(path[i], cx.at));
                }
            }
            assert forall|i: int| 1 <= i < chain.len() - 1 implies #[trigger] is_intermediate(chain, i, cx) by {
                assert(is_intermediate(path, i, cx));
                assert(chain.take(i) =~= path.take(i));
                assert(chain[i] == path[i] && chain[i - 1] == path[i - 1]);
            }
            assert(chain[n] == root && chain[n - 1] == current);
            chain
        } else {
            lemma_pool_sound(path, cx, below, 0, t)
        }
    }
}

proof fn lemma_pool_sound(path: Seq<CertView>, cx: Context, below: int, k: int, pending: Option<ChainView>) -> (chain:
    Seq<CertView>)
    requires
        is_open(path, cx),
        is_valid_at(path.last(), cx.at),
        !is_among(path.last(), cx.store.roots),
        below == path.len() - 1,
        0 <= below < MAX_DEPTH,
        0 <= k,
        pending matches Some(p) ==> !p.trusted,
        try_pool(path, cx, below, k, pending).trusted,
    ensures
        completes(chain, path, cx),
    decreases MAX_DEPTH - below, 0int, cx.pool.len() - k,
{
    if k >= cx.pool.len() {
        path
    } else {
        let next = cx.pool[k];
        if !intermediate_fits(path, next, cx, below) {
            lemma_pool_sound(path, cx, below, k + 1, pending)
        } else {
            let q = path.push(next);
            let result = extended(q, cx, below + 1);
            if result.trusted {
                lemma_open_push(path, next, cx, k);
                let chain = lemma_extended_sound(q, cx, below + 1);
                assert(chain.take(path.len() as int) =~= chain.take(q.len() as int).take(path.len() as int));
                assert(q.take(path.len() as int) =~= path);
                chain
            } else {
                lemma_pool_sound(path, cx, below, k + 1, first_of(pending, result))
            }
        }
    }
}

proof fn lemma_pool_complete(
    path: Seq<CertView>,
    cx: Context,
    below: int,
    k: int,
    j: int,
    pending: Option<ChainView>,
)
    requires
        0 <= below < MAX_DEPTH,
        0 <= k <= j < cx.pool.len(),
        intermediate_fits(path, cx.pool[j], cx, below),
        extended(path.push(cx.pool[j]), cx, below + 1).trusted,
    ensures
        try_pool(path, cx, below, k, pending).trusted,
    decreases j - k,
{
    if k < j {
        let next = cx.pool[k];
        if !intermediate_fits(path, next, cx, below) {
            lemma_pool_complete(path, cx, below, k + 1, j, pending);
        } else {
            let result = extended(path.push(next), cx, below + 1);
            if !result.trusted {
                lemma_pool_complete(path, cx, below, k + 1, j, first_of(pending, result));
            }
        }
    }
}

proof fn lemma_extended_complete(chain: Seq<CertView>, cx: Context, m: int)
    requires
        is_trusted_chain(chain, cx),
        1 <= m <= chain.len(),
        m == chain.len() ==> m == 1 || is_intermediate(chain, m - 1, cx),
        m == chain.len() ==> is_among(chain.last(), cx.store.roots),
    ensures
        extended(chain.take(m), cx, m - 1).trusted,
    decreases chain.len() - m,
{
    let n = chain.len() as int;
    let path = chain.take(m);
    assert(path.last() == chain[m - 1]);
    if m == n {
        assert(path =~= chain);
    } else {
        assert(is_valid_at(chain[m - 1], cx.at) && !is_among(chain[m - 1], cx.store.roots));
        assert(path.push(chain[m]) =~= chain.take(m + 1));
        if m == n - 1 && !((n == 1 || is_intermediate(chain, n - 1, cx)) && is_among(chain[n - 1], cx.store.roots)) {
            let j = choose|j: int| 0 <= j < cx.store.roots.len() && cx.store.roots[j] == chain[n - 1];
            assert(chain.take(m + 1) =~= chain);
            assert(chain[n - 2] == chain[m - 1]);
            lemma_roots_complete(path, cx, 0, j, None);
        } else {
            assert(is_intermediate(chain, m, cx));
            let j = choose|j: int| 0 <= j < cx.pool.len() && cx.pool[j] == chain[m];
            assert(intermediate_fits(path, cx.pool[j], cx, m - 1));
            lemma_extended_complete(chain, cx, m + 1);
            let t = try_roots(path, cx, 0, None);
            if !(t matches Some(r) && r.trusted) {
                lemma_pool_complete(path, cx, m - 1, 0, j, t);
            }
        }
    }
}

/// A leaf is trusted exactly when some chain from it to a root of the store
/// satisfies every rule: a candidate that fails its checks never keeps a valid
/// chain from being found.
pub proof fn law_trusted_iff_chain_exists(leaf: CertView, cx: Context)
    ensures
        chain_verdict(leaf, cx).trusted <==> exists|chain: Seq<CertView>|
            #[trigger] is_trusted_chain(chain, cx) && chain[0] == leaf,
{
    let path = seq![leaf];
    if chain_verdict(leaf, cx).trusted {
        assert(is_open(path, cx));
        let chain = lemma_extended_sound(path, cx, 0);
        assert(chain.take(1)[0] == chain[0]);
        assert(is_trusted_chain(chain, cx) && chain[0] == leaf);
    }
    if exists|chain: Seq<CertView>| #[trigger] is_trusted_chain(chain, cx) && chain[0] == leaf {
        let chain = choose|chain: Seq<CertView>| #[trigger] is_trusted_chain(chain, cx) && chain[0] == leaf;
        assert(chain.take(1) =~= path);
        if chain.len() == 1 {
            assert(chain =~= path);
        }
        lemma_extended_complete(chain, cx, 1);
    }
}

/// Nothing is trusted under an empty store.
pub proof fn law_empty_store_trusts_nothing(leaf: CertView, cx: Context)
    requires
        cx.store.roots.len() == 0,
    ensures
        !chain_verdict(leaf, cx).trusted,
{
    law_trusted_iff_chain_exists(leaf, cx);
    assert forall|chain: Seq<CertView>| !(#[trigger] is_trusted_chain(chain, cx) && chain[0] == leaf) by {
        if is_trusted_chain(chain, cx) {
            assert(!cx.store.roots.contains(chain[chain.len() - 1]));
            assert(!is_among(chain[chain.len() - 1], cx.store.roots));
        }
    }
}

/// A certificate that is a root of the store, and valid, is trusted as it stands.
pub proof fn law_root_is_trusted(leaf: CertView, cx: Context)
    requires
        is_among(leaf, cx.store.roots),
        is_valid_at(leaf, cx.at),
    ensures
        chain_verdict(leaf, cx).detail == "certificate is a trusted root"@,
        chain_verdict(leaf, cx).trusted,
{
    let path = seq![leaf];
    assert(path.last() == leaf);
}

// ---------------------------------------------------------------------------
// Candidates and revocation lists

/// A certificate is read from a list exactly if one of its byte strings holds it.
pub proof fn lemma_certificates_of(ders: Seq<Seq<u8>>, c: CertView)
    ensures
        certificates_of(ders).contains(c) <==> exists|i: int|
            0 <= i < ders.len() && certificate_of(#[trigger] ders[i]) == Ok::<CertView, Seq<char>>(c),
    decreases ders.len(),
{
    if ders.len() > 0 {
        let t = ders.drop_last();
        let (all, rest) = (certificates_of(ders), certificates_of(t));
        lemma_certificates_of(t, c);
        if rest.contains(c) {
            let k = choose|k: int| 0 <= k < rest.len() && rest[k] == c;
            assert(all[k] == c);
            let j = choose|j: int|
                0 <= j < t.len() && certificate_of(#[trigger] t[j]) == Ok::<CertView, Seq<char>>(c);
            assert(ders[j] == t[j]);
        }
        if certificate_of(ders.last()) == Ok::<CertView, Seq<char>>(c) {
            assert(all[all.len() - 1] == c);
            assert(ders[ders.len() - 1] == ders.last());
        }
        if exists|i: int| 0 <= i < ders.len() && certificate_of(#[trigger] ders[i]) == Ok::<CertView, Seq<char>>(c) {
            let j = choose|j: int|
                0 <= j < ders.len() && certificate_of(#[trigger] ders[j]) == Ok::<CertView, Seq<char>>(c);
            if j < t.len() {
                assert(t[j] == ders[j]);
            }
        }
        if all.contains(c) {
            let k = choose|k: int| 0 <= k < all.len() && all[k] == c;
            if k < rest.len() {
                assert(rest[k] == c);
            }
        }
    }
}

/// A revocation list is read from a list exactly if one of its byte strings holds it.
pub proof fn lemma_crls_of(ders: Seq<Seq<u8>>, c: CrlView)
    ensures
        crls_of(ders).contains(c) <==> exists|i: int| 0 <= i < ders.len() && crl_of(#[trigger] ders[i]) == Some(c),
    decreases ders.len(),
{
    if ders.len() > 0 {
        let t = ders.drop_last();
        let (all, rest) = (crls_of(ders), crls_of(t));
        lemma_crls_of(t, c);
        if rest.contains(c) {
            let k = choose|k: int| 0 <= k < rest.len() && rest[k] == c;
            assert(all[k] == c);
            let j = choose|j: int| 0 <= j < t.len() && crl_of(#[trigger] t[j]) == Some(c);
            assert(ders[j] == t[j]);
        }
        if crl_of(ders.last()) == Some(c) {
            assert(all[all.len() - 1] == c);
            assert(ders[ders.len() - 1] == ders.last());
        }
        if exists|i: int| 0 <= i < ders.len() && crl_of(#[trigger] ders[i]) == Some(c) {
            let j = choose|j: int| 0 <= j < ders.len() && crl_of(#[trigger] ders[j]) == Some(c);
            if j < t.len() {
                assert(t[j] == ders[j]);
            }
        }
        if all.contains(c) {
            let k = choose|k: int| 0 <= k < all.len() && all[k] == c;
            if k < rest.len() {
                assert(rest[k] == c);
            }
        }
    }
}

/// A chain is still trusted with more candidates and fewer revocation lists.
proof fn lemma_chain_stays(chain: Seq<CertView>, cx: Context, dx: Context)
    requires
        is_trusted_chain(chain, cx),
        dx.store == cx.store,
        dx.at == cx.at,
        dx.ocsps == cx.ocsps,
        forall|c: CertView| #[trigger] cx.pool.contains(c) ==> dx.pool.contains(c),
        forall|c: CrlView| #[trigger] dx.crls.contains(c) ==> cx.crls.contains(c),
    ensures
        is_trusted_chain(chain, dx),
{
    assert forall|a: CertView, b: CertView| #[trigger] link_holds(a, b, cx) implies link_holds(a, b, dx) by {
        if exists|i: int| 0 <= i < dx.crls.len() && #[trigger] crl_lists(a, b, dx.crls[i], dx.at) {
            let i = choose|i: int| 0 <= i < dx.crls.len() && #[trigger] crl_lists(a, b, dx.crls[i], dx.at);
            assert(dx.crls.contains(dx.crls[i]));
            let k = choose|k: int| 0 <= k < cx.crls.len() && cx.crls[k] == dx.crls[i];
            assert(crl_lists(a, b, cx.crls[k], cx.at));
        }
    }
    assert forall|i: int| #[trigger] is_intermediate(chain, i, cx) implies is_intermediate(chain, i, dx) by {
        assert(link_holds(chain[i - 1], chain[i], cx));
    }
    assert forall|i: int| 1 <= i < chain.len() - 1 implies #[trigger] is_intermediate(chain, i, dx) by {
        assert(is_intermediate(chain, i, cx));
    }
    let n = chain.len() as int;
    if n >= 2 && link_holds(chain[n - 2], chain[n - 1], cx) {
        assert(link_holds(chain[n - 2], chain[n - 1], dx));
    }
    if is_intermediate(chain, n - 1, cx) {
        assert(is_intermediate(chain, n - 1, dx));
    }
}

/// Every certificate that decodes in the one list is in the other.
pub open spec fn certificates_within(a: Seq<Seq<u8>>, b: Seq<Seq<u8>>) -> bool {
    forall|i: int| 0 <= i < a.len() && certificate_of(#[trigger] a[i]) is Ok ==> b.contains(a[i])
}

/// Every revocation list that decodes in the one list is in the other.
pub open spec fn crls_within(a: Seq<Seq<u8>>, b: Seq<Seq<u8>>) -> bool {
    forall|i: int| 0 <= i < a.len() && crl_of(#[trigger] a[i]) is Some ==> b.contains(a[i])
}

/// A trusted path stays trusted when candidates are added, when revocation lists are
/// dropped, and when either are reordered: a candidate that is rejected is skipped, and
/// never fatal.
pub proof fn law_more_candidates_keep_trust(
    leaf: Seq<u8>,
    pool: Seq<Seq<u8>>,
    crls: Seq<Seq<u8>>,
    more: Seq<Seq<u8>>,
    fewer: Seq<Seq<u8>>,
    store: StoreView,
    at: i64,
)
    requires
        ders_trusted(leaf, pool, crls, store, at),
        certificates_within(pool, more),
        crls_within(fewer, crls),
    ensures
        ders_trusted(leaf, more, fewer, store, at),
{
    let c = certificate_of(leaf)->Ok_0;
    let cx = Context { store, pool: certificates_of(pool), crls: crls_of(crls), ocsps: Seq::empty(), at };
    let dx = Context { store, pool: certificates_of(more), crls: crls_of(fewer), ocsps: Seq::empty(), at };
    assert forall|x: CertView| #[trigger] cx.pool.contains(x) implies dx.pool.contains(x) by {
        lemma_certificates_of(pool, x);
        lemma_certificates_of(more, x);
        let i = choose|i: int|
            0 <= i < pool.len() && certificate_of(#[trigger] pool[i]) == Ok::<CertView, Seq<char>>(x);
        assert(more.contains(pool[i]));
        let j = choose|j: int| 0 <= j < more.len() && more[j] == pool[i];
        assert(certificate_of(more[j]) == Ok::<CertView, Seq<char>>(x));
    }
    assert forall|x: CrlView| #[trigger] dx.crls.contains(x) implies cx.crls.contains(x) by {
        lemma_crls_of(fewer, x);
        lemma_crls_of(crls, x);
        let i = choose|i: int| 0 <= i < fewer.len() && crl_of(#[trigger] fewer[i]) == Some(x);
        assert(crls.contains(fewer[i]));
        let j = choose|j: int| 0 <= j < crls.len() && crls[j] == fewer[i];
        assert(crl_of(crls[j]) == Some(x));
    }
    law_trusted_iff_chain_exists(c, cx);
    law_trusted_iff_chain_exists(c, dx);
    let chain = choose|chain: Seq<CertView>| #[trigger] is_trusted_chain(chain, cx) && chain[0] == c;
    lemma_chain_stays(chain, cx, dx);
}

/// Byte strings that do not decode change nothing, in either list, and neither does the
/// order of a list; a leaf that does not decode is not trusted.
pub proof fn law_undecodable_blobs_change_nothing(
    leaf: Seq<u8>,
    pool: Seq<Seq<u8>>,
    crls: Seq<Seq<u8>>,
    other_pool: Seq<Seq<u8>>,
    other_crls: Seq<Seq<u8>>,
    store: StoreView,
    at: i64,
)
    requires
        certificates_within(pool, other_pool),
        certificates_within(other_pool, pool),
        crls_within(crls, other_crls),
        crls_within(other_crls, crls),
    ensures
        ders_trusted(leaf, pool, crls, store, at) == ders_trusted(leaf, other_pool, other_crls, store, at),
        certificate_of(leaf) is Err ==> !ders_trusted(leaf, pool, crls, store, at),
{
    if ders_trusted(leaf, pool, crls, store, at) {
        law_more_candidates_keep_trust(leaf, pool, crls, other_pool, other_crls, store, at);
    }
    if ders_trusted(leaf, other_pool, other_crls, store, at) {
        law_more_candidates_keep_trust(leaf, other_pool, other_crls, pool, crls, store, at);
    }
}

} // verus!
