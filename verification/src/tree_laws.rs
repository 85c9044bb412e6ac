//! How the tree of valid policies grows with a certificate, what mapping does to it, and
//! that a path on which each certificate asserts what the one above expects is accepted.
use vstd::prelude::*;

use crate::policy::{
    any_policy, child, doomed, expected_above, grown, has_child, initial_tree, intersected, is_null,
    issuer_policies, kids, live_at, map_policies, mapped, mapped_to, policies_accepted, pruned, stands_for,
    state_at, stays, with_alive, with_any, with_children, with_policies, NodeView, PolicyView, Tree,
};
use crate::policy_laws::maps_no_any;
use crate::util::{distinct, law_distinct};

verus! {

// ---------------------------------------------------------------------------
// Growing

/// All nodes of a tree stand above the depth.
pub open spec fn stands_above(t: Tree, depth: int) -> bool {
    forall|k: int| 0 <= k < t.len() ==> (#[trigger] t[k]).depth < depth
}

/// A certificate's policy takes a node on: it is one that the node expects; or no node
/// expects it and this one expects `anyPolicy`.
pub open spec fn taken_on(t: Tree, depth: int, k: int, p: Seq<u8>) -> bool {
    live_at(t, k, depth - 1) && (t[k].expected.contains(p) || (t[k].expected.contains(any_policy()) && forall|j: int|
        live_at(t, j, depth - 1) ==> !(#[trigger] t[j]).expected.contains(p)))
}

/// A tree with further nodes at the depth, each under one of the nodes that were there.
spec fn extends(t: Tree, u: Tree, depth: int) -> bool {
    &&& t.len() <= u.len()
    &&& forall|k: int| 0 <= k < t.len() ==> #[trigger] u[k] == t[k]
    &&& forall|k: int|
        t.len() <= k < u.len() ==> (#[trigger] u[k]).depth == depth && u[k].alive && u[k].expected == seq![u[k].policy]
            && (u[k].parent matches Some(q) && live_at(t, q, depth - 1))
}

proof fn lemma_kids(t: Tree, u: Tree, depth: int, p: Seq<u8>, q: Seq<u8>, n: int)
    requires
        extends(t, u, depth),
        stands_above(t, depth),
        0 <= n <= u.len(),
    ensures
        extends(t, u + kids(u, depth, p, q, n), depth),
        forall|k: int, r: Seq<u8>| #[trigger]
            has_child(u + kids(u, depth, p, q, n), k, depth, r) <==> has_child(u, k, depth, r) || (r == p && k < n
                && live_at(t, k, depth - 1) && t[k].expected.contains(q)),
    decreases n,
{
    if n == 0 {
        assert(u + kids(u, depth, p, q, n) =~= u);
    } else {
        lemma_kids(t, u, depth, p, q, n - 1);
        let r0 = kids(u, depth, p, q, n - 1);
        let v0 = u + r0;
        let v = u + kids(u, depth, p, q, n);
        if live_at(u, n - 1, depth - 1) && u[n - 1].expected.contains(q) {
            assert(n - 1 < t.len());
            assert(v =~= v0.push(child(depth, p, n - 1)));
            assert forall|k: int, r: Seq<u8>| #[trigger] has_child(v, k, depth, r) <==> has_child(u, k, depth, r) || (r
                == p && k < n && live_at(t, k, depth - 1) && t[k].expected.contains(q)) by {
                lemma_push_child(v0, depth, p, n - 1, k, r);
                assert(has_child(v0, k, depth, r) <==> has_child(u, k, depth, r) || (r == p && k < n - 1 && live_at(
                    t,
                    k,
                    depth - 1,
                ) && t[k].expected.contains(q)));
            }
        } else {
            assert(v == v0);
            assert forall|k: int, r: Seq<u8>| #[trigger] has_child(v, k, depth, r) <==> has_child(u, k, depth, r) || (r
                == p && k < n && live_at(t, k, depth - 1) && t[k].expected.contains(q)) by {
                assert(has_child(v0, k, depth, r) <==> has_child(u, k, depth, r) || (r == p && k < n - 1 && live_at(
                    t,
                    k,
                    depth - 1,
                ) && t[k].expected.contains(q)));
                if k == n - 1 && live_at(t, k, depth - 1) {
                    assert(u[k] == t[k]);
                }
            }
        }
    }
}

proof fn lemma_push_child(v: Tree, depth: int, p: Seq<u8>, parent: int, k: int, r: Seq<u8>)
    ensures
        has_child(v.push(child(depth, p, parent)), k, depth, r) <==> has_child(v, k, depth, r) || (r == p && k
            == parent),
{
    let w = v.push(child(depth, p, parent));
    if has_child(v, k, depth, r) {
        let c = choose|c: int| live_at(v, c, depth) && (#[trigger] v[c]).parent == Some(k) && v[c].policy == r;
        assert(w[c] == v[c]);
        assert(live_at(w, c, depth));
    }
    if r == p && k == parent {
        let c = v.len() as int;
        assert(live_at(w, c, depth) && w[c].parent == Some(k) && w[c].policy == r);
    }
    if has_child(w, k, depth, r) {
        let c = choose|c: int| live_at(w, c, depth) && (#[trigger] w[c]).parent == Some(k) && w[c].policy == r;
        if c < v.len() {
            assert(v[c] == w[c]);
            assert(live_at(v, c, depth));
        }
    }
}

proof fn lemma_with_policies(t: Tree, depth: int, ps: Seq<Seq<u8>>)
    requires
        stands_above(t, depth),
    ensures
        extends(t, with_policies(t, depth, ps), depth),
        forall|k: int, r: Seq<u8>| #[trigger]
            has_child(with_policies(t, depth, ps), k, depth, r) <==> ps.contains(r) && r != any_policy() && taken_on(
                t,
                depth,
                k,
                r,
            ),
    decreases ps.len(),
{
    if ps.len() == 0 {
        assert forall|k: int, r: Seq<u8>| !#[trigger] has_child(t, k, depth, r) by {}
    } else {
        let front = ps.drop_last();
        lemma_with_policies(t, depth, front);
        let u = with_policies(t, depth, front);
        let p = ps.last();
        let v = with_policies(t, depth, ps);
        if p != any_policy() {
            let q = if expected_above(u, depth, p) {
                p
            } else {
                any_policy()
            };
            lemma_kids(t, u, depth, p, q, u.len() as int);
            assert(expected_above(u, depth, p) <==> expected_above(t, depth, p)) by {
                if expected_above(u, depth, p) {
                    let k = choose|k: int| live_at(u, k, depth - 1) && (#[trigger] u[k]).expected.contains(p);
                    assert(k < t.len());
                    assert(t[k] == u[k]);
                    assert(live_at(t, k, depth - 1));
                }
                if expected_above(t, depth, p) {
                    let k = choose|k: int| live_at(t, k, depth - 1) && (#[trigger] t[k]).expected.contains(p);
                    assert(t[k] == u[k]);
                    assert(live_at(u, k, depth - 1));
                }
            }
            assert forall|k: int| live_at(t, k, depth - 1) && t[k].expected.contains(q) <==> #[trigger] taken_on(
                t,
                depth,
                k,
                p,
            ) by {
                if expected_above(t, depth, p) {
                    let j = choose|j: int| live_at(t, j, depth - 1) && (#[trigger] t[j]).expected.contains(p);
                    assert(t[j].expected.contains(p));
                }
            }
        }
        assert forall|k: int, r: Seq<u8>| #[trigger] has_child(v, k, depth, r) <==> ps.contains(r) && r != any_policy()
            && taken_on(t, depth, k, r) by {
            assert(has_child(u, k, depth, r) <==> front.contains(r) && r != any_policy() && taken_on(t, depth, k, r));
            if front.contains(r) {
                let i = choose|i: int| 0 <= i < front.len() && front[i] == r;
                assert(ps[i] == r);
            }
            if ps.contains(r) && r != p {
                let i = choose|i: int| 0 <= i < ps.len() && ps[i] == r;
                assert(front[i] == r);
            }
            assert(ps[ps.len() - 1] == p);
            assert(taken_on(t, depth, k, p) ==> k < u.len());
        }
    }
}

proof fn lemma_with_children(t: Tree, u: Tree, depth: int, k: int, ps: Seq<Seq<u8>>)
    requires
        extends(t, u, depth),
        live_at(t, k, depth - 1),
    ensures
        extends(t, with_children(u, depth, k, ps), depth),
        with_children(u, depth, k, ps).len() >= u.len(),
        forall|j: int, r: Seq<u8>| #[trigger]
            has_child(with_children(u, depth, k, ps), j, depth, r) <==> has_child(u, j, depth, r) || (j == k
                && ps.contains(r)),
    decreases ps.len(),
{
    if ps.len() > 0 {
        let front = ps.drop_last();
        lemma_with_children(t, u, depth, k, front);
        let v = with_children(u, depth, k, front);
        let p = ps.last();
        let w = with_children(u, depth, k, ps);
        assert forall|j: int, r: Seq<u8>| #[trigger] has_child(w, j, depth, r) <==> has_child(u, j, depth, r) || (j == k
            && ps.contains(r)) by {
            assert(has_child(v, j, depth, r) <==> has_child(u, j, depth, r) || (j == k && front.contains(r)));
            lemma_push_child(v, depth, p, k, j, r);
            if front.contains(r) {
                let i = choose|i: int| 0 <= i < front.len() && front[i] == r;
                assert(ps[i] == r);
            }
            if ps.contains(r) && r != p {
                let i = choose|i: int| 0 <= i < ps.len() && ps[i] == r;
                assert(front[i] == r);
            }
            assert(ps[ps.len() - 1] == p);
            assert(ps.contains(p));
        }
    }
}

proof fn lemma_with_any(t: Tree, u: Tree, depth: int, n: int)
    requires
        extends(t, u, depth),
        stands_above(t, depth),
        0 <= n <= u.len(),
    ensures
        extends(t, with_any(u, depth, n), depth),
        with_any(u, depth, n).len() >= u.len(),
        forall|j: int, r: Seq<u8>| #[trigger]
            has_child(with_any(u, depth, n), j, depth, r) <==> has_child(u, j, depth, r) || (j < n && live_at(
                t,
                j,
                depth - 1,
            ) && t[j].expected.contains(r)),
    decreases n,
{
    if n > 0 {
        lemma_with_any(t, u, depth, n - 1);
        let v = with_any(u, depth, n - 1);
        let w = with_any(u, depth, n);
        let k = n - 1;
        if live_at(v, k, depth - 1) {
            assert(k < t.len());
            assert(v[k] == t[k]);
            lemma_with_children(t, v, depth, k, v[k].expected);
        } else {
            assert(k < t.len() ==> v[k] == t[k]);
        }
        assert forall|j: int, r: Seq<u8>| #[trigger] has_child(w, j, depth, r) <==> has_child(u, j, depth, r) || (j < n
            && live_at(t, j, depth - 1) && t[j].expected.contains(r)) by {
            assert(has_child(v, j, depth, r) <==> has_child(u, j, depth, r) || (j < n - 1 && live_at(t, j, depth - 1)
                && t[j].expected.contains(r)));
        }
    }
}

/// With a certificate the tree gets exactly these nodes: under each node at the level
/// above, one for every policy of the certificate that takes it on, and, where the
/// certificate asserts `anyPolicy` and that counts, one for everything that the node
/// expects. `anyPolicy` counts while it is not inhibited, and in a certificate that issued
/// itself, other than the last.
pub proof fn law_tree_grows(
    t: Tree,
    depth: int,
    policies: Seq<Seq<u8>>,
    inhibit_any: int,
    not_last: bool,
    self_issued: bool,
    k: int,
    p: Seq<u8>,
)
    requires
        stands_above(t, depth),
    ensures
        has_child(grown(t, depth, policies, inhibit_any, not_last, self_issued), k, depth, p) <==> {
            ||| policies.contains(p) && p != any_policy() && taken_on(t, depth, k, p)
            ||| policies.contains(any_policy()) && (inhibit_any > 0 || (not_last && self_issued)) && live_at(
                t,
                k,
                depth - 1,
            ) && t[k].expected.contains(p)
        },
{
    let g = grown(t, depth, policies, inhibit_any, not_last, self_issued);
    if is_null(t) {
        assert(!live_at(t, k, depth - 1));
        assert(!has_child(t, k, depth, p));
    } else {
        law_distinct(policies);
        lemma_with_policies(t, depth, distinct(policies));
        let a = with_policies(t, depth, distinct(policies));
        let allowed = policies.contains(any_policy()) && (inhibit_any > 0 || (not_last && self_issued));
        if allowed {
            lemma_with_any(t, a, depth, a.len() as int);
        }
        let b = if allowed {
            with_any(a, depth, a.len() as int)
        } else {
            a
        };
        assert(g == pruned(b, depth));
        assert(has_child(g, k, depth, p) <==> has_child(b, k, depth, p)) by {
            if has_child(b, k, depth, p) {
                let c = choose|c: int| live_at(b, c, depth) && (#[trigger] b[c]).parent == Some(k) && b[c].policy == p;
                assert(stays(b, c, depth));
                assert(g[c] == with_alive(b[c], true));
                assert(live_at(g, c, depth));
            }
            if has_child(g, k, depth, p) {
                let c = choose|c: int| live_at(g, c, depth) && (#[trigger] g[c]).parent == Some(k) && g[c].policy == p;
                assert(g[c] == with_alive(b[c], stays(b, c, depth)));
                assert(live_at(b, c, depth));
            }
        }
        assert(has_child(a, k, depth, p) <==> distinct(policies).contains(p) && p != any_policy() && taken_on(
            t,
            depth,
            k,
            p,
        ));
        if allowed {
            assert(has_child(b, k, depth, p) <==> has_child(a, k, depth, p) || (k < a.len() && live_at(t, k, depth - 1)
                && t[k].expected.contains(p)));
        }
    }
}

// ---------------------------------------------------------------------------
// Mapping

/// A policy is mapped to exactly those that stand behind it in the mappings.
pub proof fn law_mapped_policies(maps: Seq<(Seq<u8>, Seq<u8>)>, p: Seq<u8>, q: Seq<u8>)
    ensures
        mapped_to(maps, p).contains(q) <==> maps.contains((p, q)),
    decreases maps.len(),
{
    if maps.len() > 0 {
        let t = maps.drop_last();
        law_mapped_policies(t, p, q);
        let r = mapped_to(t, p);
        let all = mapped_to(maps, p);
        if t.contains((p, q)) {
            let i = choose|i: int| 0 <= i < t.len() && t[i] == (p, q);
            assert(maps[i] == (p, q));
            let k = choose|k: int| 0 <= k < r.len() && r[k] == q;
            assert(all[k] == q);
        }
        if maps.last() == (p, q) {
            assert(maps[maps.len() - 1] == (p, q));
            if r.contains(q) {
                let k = choose|k: int| 0 <= k < r.len() && r[k] == q;
                assert(all[k] == q);
            } else {
                assert(all[all.len() - 1] == q);
            }
        }
        if maps.contains((p, q)) {
            let i = choose|i: int| 0 <= i < maps.len() && maps[i] == (p, q);
            if i < t.len() {
                assert(t[i] == (p, q));
            }
        }
        if all.contains(q) {
            let k = choose|k: int| 0 <= k < all.len() && all[k] == q;
            if k < r.len() {
                assert(r[k] == q);
                assert(r.contains(q));
            }
        }
    }
}

/// Mappings from or to `anyPolicy` are refused, and no others.
pub proof fn law_mapping_any_is_refused(t: Tree, depth: int, maps: Seq<(Seq<u8>, Seq<u8>)>, allowance: int)
    ensures
        mapped(t, depth, maps, allowance) is Err <==> exists|i: int|
            0 <= i < maps.len() && ((#[trigger] maps[i]).0 == any_policy() || maps[i].1 == any_policy()),
{
}

/// A policy is one of those that are mapped.
pub open spec fn is_mapped(maps: Seq<(Seq<u8>, Seq<u8>)>, p: Seq<u8>) -> bool {
    exists|i: int| 0 <= i < maps.len() && (#[trigger] maps[i]).0 == p
}

proof fn lemma_issuer_policies(maps: Seq<(Seq<u8>, Seq<u8>)>, p: Seq<u8>)
    ensures
        issuer_policies(maps).contains(p) <==> is_mapped(maps, p),
{
    let all = Seq::new(maps.len(), |i: int| maps[i].0);
    law_distinct(all);
    if is_mapped(maps, p) {
        let i = choose|i: int| 0 <= i < maps.len() && (#[trigger] maps[i]).0 == p;
        assert(all[i] == p);
    }
    if all.contains(p) {
        let i = choose|i: int| 0 <= i < all.len() && all[i] == p;
        assert(maps[i].0 == p);
    }
}

/// A node keeps its place in a tree: depth, policy, parent and life.
spec fn same_place(a: NodeView, b: NodeView) -> bool {
    a.depth == b.depth && a.policy == b.policy && a.parent == b.parent && a.alive == b.alive
}

proof fn lemma_map_allowed(t: Tree, depth: int, maps: Seq<(Seq<u8>, Seq<u8>)>, ps: Seq<Seq<u8>>, k: int)
    requires
        0 <= k < t.len(),
        ps.no_duplicates(),
    ensures
        ({
            let u = map_policies(t, depth, maps, ps, true);
            &&& u.len() >= t.len()
            &&& same_place(u[k], t[k])
            &&& u[k].expected == (if live_at(t, k, depth) && ps.contains(t[k].policy) {
                mapped_to(maps, t[k].policy)
            } else {
                t[k].expected
            })
        }),
    decreases ps.len(),
{
    if ps.len() > 0 {
        let front = ps.drop_last();
        lemma_map_allowed(t, depth, maps, front, k);
        let u = map_policies(t, depth, maps, front, true);
        let p = ps.last();
        assert(ps[ps.len() - 1] == p);
        assert(ps.contains(p));
        if front.contains(t[k].policy) {
            let i = choose|i: int| 0 <= i < front.len() && front[i] == t[k].policy;
            assert(ps[i] == t[k].policy);
            assert(ps[ps.len() - 1] == p);
        }
        if ps.contains(t[k].policy) && t[k].policy != p {
            let i = choose|i: int| 0 <= i < ps.len() && ps[i] == t[k].policy;
            assert(front[i] == t[k].policy);
        }
        if stands_for(u, k, depth, p) {
            assert(exists|j: int| stands_for(u, j, depth, p));
        }
    }
}

/// Where mapping is allowed, a live node at the level of the certificate that stands for a
/// mapped policy expects what the policy is mapped to; every other node stays as it is.
pub proof fn law_mapping(t: Tree, depth: int, maps: Seq<(Seq<u8>, Seq<u8>)>, allowance: int, k: int)
    requires
        0 <= k < t.len(),
        allowance > 0,
        mapped(t, depth, maps, allowance) is Ok,
    ensures
        ({
            let u = mapped(t, depth, maps, allowance)->Ok_0;
            &&& u.len() >= t.len()
            &&& u[k].depth == t[k].depth && u[k].policy == t[k].policy && u[k].parent == t[k].parent && u[k].alive
                == t[k].alive
            &&& live_at(t, k, depth) && is_mapped(maps, t[k].policy) ==> forall|q: Seq<u8>|
                u[k].expected.contains(q) <==> #[trigger] maps.contains((t[k].policy, q))
            &&& !(live_at(t, k, depth) && is_mapped(maps, t[k].policy)) ==> u[k].expected == t[k].expected
        }),
{
    let ps = issuer_policies(maps);
    law_distinct(Seq::new(maps.len(), |i: int| maps[i].0));
    lemma_map_allowed(t, depth, maps, ps, k);
    lemma_issuer_policies(maps, t[k].policy);
    let u = mapped(t, depth, maps, allowance)->Ok_0;
    if live_at(t, k, depth) && is_mapped(maps, t[k].policy) {
        assert forall|q: Seq<u8>| u[k].expected.contains(q) <==> #[trigger] maps.contains((t[k].policy, q)) by {
            law_mapped_policies(maps, t[k].policy, q);
        }
    }
}

proof fn lemma_map_denied(t: Tree, depth: int, maps: Seq<(Seq<u8>, Seq<u8>)>, ps: Seq<Seq<u8>>, k: int)
    requires
        0 <= k < t.len(),
        t[k].depth == depth,
    ensures
        ({
            let u = map_policies(t, depth, maps, ps, false);
            &&& u.len() == t.len()
            &&& u[k].depth == depth && u[k].policy == t[k].policy && u[k].parent == t[k].parent && u[k].expected
                == t[k].expected
            &&& u[k].alive <==> t[k].alive && !ps.contains(t[k].policy)
        }),
    decreases ps.len(),
{
    if ps.len() > 0 {
        let front = ps.drop_last();
        lemma_map_denied(t, depth, maps, front, k);
        let u = map_policies(t, depth, maps, front, false);
        let p = ps.last();
        assert(ps[ps.len() - 1] == p);
        assert(ps.contains(p));
        if front.contains(t[k].policy) {
            let i = choose|i: int| 0 <= i < front.len() && front[i] == t[k].policy;
            assert(ps[i] == t[k].policy);
        }
        if ps.contains(t[k].policy) && t[k].policy != p {
            let i = choose|i: int| 0 <= i < ps.len() && ps[i] == t[k].policy;
            assert(front[i] == t[k].policy);
        }
        let d = Seq::new(u.len(), |j: int| with_alive(u[j], u[j].alive && !stands_for(u, j, depth, p)));
        let v = map_policies(t, depth, maps, ps, false);
        assert(v == pruned(d, depth));
        assert(v[k] == with_alive(d[k], stays(d, k, depth)));
    }
}

/// Where mapping is inhibited, no node at the level of the certificate stands any more for
/// a policy that it maps, and the others at that level stay.
pub proof fn law_inhibited_mapping(t: Tree, depth: int, maps: Seq<(Seq<u8>, Seq<u8>)>, allowance: int, k: int)
    requires
        0 <= k < t.len(),
        t[k].depth == depth,
        allowance <= 0,
        mapped(t, depth, maps, allowance) is Ok,
    ensures
        ({
            let u = mapped(t, depth, maps, allowance)->Ok_0;
            &&& u.len() == t.len()
            &&& u[k].depth == depth && u[k].policy == t[k].policy && u[k].parent == t[k].parent && u[k].expected
                == t[k].expected
            &&& u[k].alive <==> t[k].alive && !is_mapped(maps, t[k].policy)
        }),
{
    lemma_map_denied(t, depth, maps, issuer_policies(maps), k);
    lemma_issuer_policies(maps, t[k].policy);
}

// ---------------------------------------------------------------------------
// Accepted paths

/// Policies, one for each certificate of a path: each certificate asserts its own, and it
/// is the one of the certificate above, or one that the certificate above maps that to.
pub open spec fn policies_lead(certs: Seq<PolicyView>, c: Seq<Seq<u8>>) -> bool {
    &&& c.len() == certs.len()
    &&& forall|i: int|
        0 <= i < certs.len() ==> (#[trigger] certs[i]).policies is Some && certs[i].policies->0.contains(c[i]) && c[i]
            != any_policy() && maps_no_any(certs[i]) && certs[i].inhibit_mapping is None
    &&& forall|i: int|
        0 <= i < certs.len() - 1 ==> leads_on((#[trigger] certs[i]).mappings, c[i], c[i + 1])
}

/// What stands below a policy: where it is mapped, one of those it is mapped to, otherwise
/// the policy itself.
pub open spec fn leads_on(mappings: Option<Seq<(Seq<u8>, Seq<u8>)>>, p: Seq<u8>, q: Seq<u8>) -> bool {
    match mappings {
        Some(maps) => if is_mapped(maps, p) {
            maps.contains((p, q))
        } else {
            p == q
        },
        None => p == q,
    }
}

/// The node descends from the root by nodes for the policies.
spec fn descends(t: Tree, k: int, c: Seq<Seq<u8>>, i: int) -> bool
    decreases i,
{
    0 <= k < t.len() && t[k].depth == i && if i <= 0 {
        t[k].policy == any_policy() && t[k].parent is None
    } else {
        t[k].policy == c[i - 1] && (t[k].parent matches Some(q) && 0 <= q < k && descends(t, q, c, i - 1))
    }
}

spec fn keeps_places(t: Tree, u: Tree) -> bool {
    t.len() <= u.len() && forall|k: int|
        0 <= k < t.len() ==> (#[trigger] u[k]).depth == t[k].depth && u[k].policy == t[k].policy && u[k].parent
            == t[k].parent
}

proof fn lemma_descends(t: Tree, u: Tree, k: int, c: Seq<Seq<u8>>, i: int)
    requires
        keeps_places(t, u),
        descends(t, k, c, i),
    ensures
        descends(u, k, c, i),
    decreases i,
{
    if i > 0 {
        lemma_descends(t, u, t[k].parent->0, c, i - 1);
    }
}

proof fn lemma_not_doomed(t: Tree, k: int, c: Seq<Seq<u8>>, i: int, accepted: Seq<Seq<u8>>)
    requires
        descends(t, k, c, i),
        i >= 1 ==> accepted.contains(c[0]),
        0 <= i <= c.len(),
        forall|j: int| 0 <= j < c.len() ==> (#[trigger] c[j]) != any_policy(),
    ensures
        !doomed(t, k, accepted),
    decreases i,
{
    if i > 0 {
        let q = t[k].parent->0;
        lemma_not_doomed(t, q, c, i - 1, accepted);
        if i > 1 {
            assert(t[q].policy == c[i - 2]);
        }
    }
}

/// What is true of the tree before certificate `i`.
spec fn on_the_way(t: Tree, k: int, c: Seq<Seq<u8>>, i: int) -> bool {
    &&& descends(t, k, c, i)
    &&& t[k].alive
    &&& i == 0 ==> t[k].expected.contains(any_policy())
    &&& 0 < i < c.len() ==> t[k].expected.contains(c[i])
    &&& stands_above(t, i + 1)
    &&& i == 0 ==> t.len() == 1 && t[0].expected == seq![any_policy()]
}

proof fn lemma_grown_frame(t: Tree, depth: int, ps: Seq<Seq<u8>>, inhibit: int, not_last: bool, own: bool)
    requires
        stands_above(t, depth),
    ensures
        keeps_places(t, grown(t, depth, ps, inhibit, not_last, own)),
        stands_above(grown(t, depth, ps, inhibit, not_last, own), depth + 1),
        forall|k: int|
            t.len() <= k < grown(t, depth, ps, inhibit, not_last, own).len() ==> (#[trigger] grown(
                t,
                depth,
                ps,
                inhibit,
                not_last,
                own,
            )[k]).expected == seq![grown(t, depth, ps, inhibit, not_last, own)[k].policy],
        forall|k: int|
            0 <= k < t.len() ==> (#[trigger] grown(t, depth, ps, inhibit, not_last, own)[k]).depth < depth,
{
    if !is_null(t) {
        lemma_with_policies(t, depth, distinct(ps));
        let a = with_policies(t, depth, distinct(ps));
        let allowed = ps.contains(any_policy()) && (inhibit > 0 || (not_last && own));
        if allowed {
            lemma_with_any(t, a, depth, a.len() as int);
        }
        let b = if allowed {
            with_any(a, depth, a.len() as int)
        } else {
            a
        };
        let g = grown(t, depth, ps, inhibit, not_last, own);
        assert forall|k: int| 0 <= k < g.len() implies (#[trigger] g[k]).depth < depth + 1 && g[k].depth == b[k].depth
            && g[k].policy == b[k].policy && g[k].expected == b[k].expected && g[k].parent == b[k].parent by {
            if k < t.len() {
                assert(b[k] == t[k]);
            }
        }
        assert forall|k: int| 0 <= k < t.len() implies (#[trigger] g[k]).depth == t[k].depth && g[k].policy
            == t[k].policy && g[k].parent == t[k].parent by {
            assert(b[k] == t[k]);
        }
    }
}

/// One certificate leads the node on.
proof fn lemma_leads_on(certs: Seq<PolicyView>, c: Seq<Seq<u8>>, explicit: bool, i: int, k: int) -> (j: int)
    requires
        policies_lead(certs, c),
        0 <= i < certs.len(),
        state_at(certs, explicit, i) is Ok,
        on_the_way(state_at(certs, explicit, i)->Ok_0.tree, k, c, i),
        state_at(certs, explicit, i)->Ok_0.policy_mapping > 0,
    ensures
        state_at(certs, explicit, i + 1) is Ok,
        on_the_way(state_at(certs, explicit, i + 1)->Ok_0.tree, j, c, i + 1),
{
    let st = state_at(certs, explicit, i)->Ok_0;
    let t = st.tree;
    let cert = certs[i];
    let n = certs.len() as int;
    let ps = cert.policies->0;
    let depth = i + 1;
    assert(cert.policies is Some);
    assert(maps_no_any(cert));
    assert(live_at(t, k, depth - 1));
    assert(taken_on(t, depth, k, c[i])) by {
        if i == 0 {
            assert forall|j: int| live_at(t, j, depth - 1) implies !(#[trigger] t[j]).expected.contains(c[i]) by {
                assert(t[j].expected == seq![any_policy()]);
            }
        }
    }
    law_tree_grows(t, depth, ps, st.inhibit_any, depth < n, cert.self_issued, k, c[i]);
    lemma_grown_frame(t, depth, ps, st.inhibit_any, depth < n, cert.self_issued);
    let g = grown(t, depth, ps, st.inhibit_any, depth < n, cert.self_issued);
    let j = choose|j: int| live_at(g, j, depth) && (#[trigger] g[j]).parent == Some(k) && g[j].policy == c[i];
    assert(j >= t.len()) by {
        if j < t.len() {
            assert(g[j].depth < depth);
        }
    }
    lemma_descends(t, g, k, c, i);
    assert(descends(g, j, c, depth));
    assert(g[j].expected == seq![c[i]]);
    assert(g[j].expected[0] == c[i]);
    assert(!is_null(g));
    if depth < n {
        assert(leads_on(certs[i].mappings, c[i], c[i + 1]));
        if let Some(maps) = cert.mappings {
            assert(mapped(g, depth, maps, st.policy_mapping) is Ok);
            law_mapping(g, depth, maps, st.policy_mapping, j);
            let u = mapped(g, depth, maps, st.policy_mapping)->Ok_0;
            lemma_mapped_places(g, depth, maps, st.policy_mapping);
            lemma_descends(g, u, j, c, depth);
            if is_mapped(maps, c[i]) {
                assert(maps.contains((g[j].policy, c[i + 1])));
            }
        }
    }
    j
}

proof fn lemma_mapped_places(t: Tree, depth: int, maps: Seq<(Seq<u8>, Seq<u8>)>, allowance: int)
    requires
        allowance > 0,
        mapped(t, depth, maps, allowance) is Ok,
        stands_above(t, depth + 1),
    ensures
        keeps_places(t, mapped(t, depth, maps, allowance)->Ok_0),
        stands_above(mapped(t, depth, maps, allowance)->Ok_0, depth + 1),
{
    let u = mapped(t, depth, maps, allowance)->Ok_0;
    lemma_map_depth(t, depth, maps, issuer_policies(maps));
    assert forall|k: int| 0 <= k < t.len() implies (#[trigger] u[k]).depth == t[k].depth && u[k].policy == t[k].policy
        && u[k].parent == t[k].parent by {
        law_mapping(t, depth, maps, allowance, k);
    }
}

proof fn lemma_map_depth(t: Tree, depth: int, maps: Seq<(Seq<u8>, Seq<u8>)>, ps: Seq<Seq<u8>>)
    requires
        stands_above(t, depth + 1),
    ensures
        stands_above(map_policies(t, depth, maps, ps, true), depth + 1),
        map_policies(t, depth, maps, ps, true).len() >= t.len(),
    decreases ps.len(),
{
    if ps.len() > 0 {
        lemma_map_depth(t, depth, maps, ps.drop_last());
        let u = map_policies(t, depth, maps, ps.drop_last(), true);
        let v = map_policies(t, depth, maps, ps, true);
        assert forall|k: int| 0 <= k < v.len() implies (#[trigger] v[k]).depth < depth + 1 by {
            if k < u.len() {
                assert(u[k].depth < depth + 1);
            }
        }
    }
}

proof fn lemma_way(certs: Seq<PolicyView>, c: Seq<Seq<u8>>, explicit: bool, i: int) -> (k: int)
    requires
        policies_lead(certs, c),
        0 <= i <= certs.len(),
        certs.len() > 0,
    ensures
        state_at(certs, explicit, i) is Ok,
        on_the_way(state_at(certs, explicit, i)->Ok_0.tree, k, c, i),
    decreases i,
{
    if i == 0 {
        let t = initial_tree();
        assert(t[0].expected[0] == any_policy());
        0
    } else {
        let k = lemma_way(certs, c, explicit, i - 1);
        crate::counter_laws::law_limits_are_counted(certs, explicit, i - 1);
        let limits = crate::counter_laws::mapping_limits(certs);
        if crate::counter_laws::reached(certs, limits, i - 1, 0) {
            let j = choose|j: int|
                0 <= j < i - 1 && (#[trigger] limits[j]) is Some && limits[j]->0 <= crate::counter_laws::others(
                    certs,
                    j + 1,
                    i - 1,
                );
            assert(certs[j].inhibit_mapping is None);
        }
        lemma_leads_on(certs, c, explicit, i - 1, k)
    }
}

/// A path is accepted, also where a policy is required, if each certificate asserts the
/// policy that it inherits from the one above, through mappings where there are any, and
/// the first of them is one that the caller accepts.
pub proof fn law_policies_that_lead_are_accepted(
    certs: Seq<PolicyView>,
    c: Seq<Seq<u8>>,
    accepted: Seq<Seq<u8>>,
    explicit: bool,
)
    requires
        policies_lead(certs, c),
        certs.len() > 0 ==> accepted.contains(c[0]),
    ensures
        policies_accepted(certs, accepted, explicit) is Ok,
{
    let n = certs.len() as int;
    if n > 0 {
        let k = lemma_way(certs, c, explicit, n);
        let t = state_at(certs, explicit, n)->Ok_0.tree;
        assert forall|j: int| 0 <= j < c.len() implies (#[trigger] c[j]) != any_policy() by {
            assert(certs[j].policies is Some);
        }
        lemma_not_doomed(t, k, c, n, accepted);
        let u = intersected(t, n, accepted);
        assert(t[k].alive);
        assert(!is_null(t));
        if u != t {
            let d = Seq::new(t.len(), |j: int| with_alive(t[j], t[j].alive && !doomed(t, j, accepted)));
            assert(u == pruned(d, n));
            assert(stays(d, k, n));
            assert(u[k] == with_alive(d[k], true));
            assert(u[k].alive);
        } else {
            assert(u[k].alive);
        }
    }
}

} // verus!
