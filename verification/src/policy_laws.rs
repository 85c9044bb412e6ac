//! What the policy engine promises of whole paths.
use vstd::prelude::*;

use crate::policy::{
    any_policy, barred, child, child_stays, doomed, expected_above, grown, has_child, initial_tree, intersected,
    is_null, kids, live_at, policies_accepted, pruned, stands_for, state_at, stays, with_alive, with_any,
    with_children, with_policies, NodeView, PolicyView, Tree,
};
use crate::util::{distinct, law_distinct};

verus! {

/// A policy that the certificate behind depth `d` brings in: one it asserts
/// itself, or any at all where it asserts `anyPolicy`.
pub open spec fn asserted(certs: Seq<PolicyView>, d: int, p: Seq<u8>) -> bool {
    certs[d - 1].policies matches Some(ps) && (ps.contains(any_policy()) || (p != any_policy() && ps.contains(p)))
}

/// A node of a tree in which nothing was mapped: it expects its own policy, its
/// parent stands one level up for the same policy or for `anyPolicy`, and its
/// policy comes from the certificate of its level.
spec fn node_traced(certs: Seq<PolicyView>, t: Tree, k: int, i: int) -> bool {
    &&& 0 <= t[k].depth <= i
    &&& t[k].expected == seq![t[k].policy]
    &&& t[k].depth == 0 ==> t[k].policy == any_policy() && t[k].parent is None
    &&& t[k].depth > 0 ==> {
        &&& t[k].parent matches Some(q) && 0 <= q < k && t[q].depth == t[k].depth - 1 && (t[q].policy == t[k].policy
            || t[q].policy == any_policy()) && (t[k].alive ==> t[q].alive)
        &&& asserted(certs, t[k].depth, t[k].policy)
    }
}

spec fn traced(certs: Seq<PolicyView>, t: Tree, i: int) -> bool {
    forall|k: int| 0 <= k < t.len() ==> #[trigger] node_traced(certs, t, k, i)
}

proof fn lemma_traced_push(certs: Seq<PolicyView>, t: Tree, i: int, p: Seq<u8>, q: int)
    requires
        traced(certs, t, i),
        i >= 1,
        live_at(t, q, i - 1),
        t[q].policy == p || t[q].policy == any_policy(),
        asserted(certs, i, p),
    ensures
        traced(certs, t.push(child(i, p, q)), i),
{
    let u = t.push(child(i, p, q));
    assert forall|k: int| 0 <= k < u.len() implies #[trigger] node_traced(certs, u, k, i) by {
        if k < t.len() {
            assert(node_traced(certs, t, k, i));
            if t[k].depth > 0 {
                let r = t[k].parent->0;
                assert(u[r] == t[r]);
            }
        } else {
            assert(u[q] == t[q]);
        }
    }
}

proof fn lemma_traced_kids(certs: Seq<PolicyView>, t: Tree, i: int, p: Seq<u8>, q: Seq<u8>, n: int)
    requires
        traced(certs, t, i),
        i >= 1,
        0 <= n <= t.len(),
        q == p || q == any_policy(),
        asserted(certs, i, p),
    ensures
        traced(certs, t + kids(t, i, p, q, n), i),
    decreases n,
{
    if n == 0 {
        assert(t + kids(t, i, p, q, n) =~= t);
    } else {
        lemma_traced_kids(certs, t, i, p, q, n - 1);
        let r = kids(t, i, p, q, n - 1);
        if live_at(t, n - 1, i - 1) && t[n - 1].expected.contains(q) {
            let u = t + r;
            assert(node_traced(certs, t, n - 1, i));
            assert(t[n - 1].policy == q);
            assert(u[n - 1] == t[n - 1]);
            lemma_traced_push(certs, u, i, p, n - 1);
            assert(t + r.push(child(i, p, n - 1)) =~= u.push(child(i, p, n - 1)));
        }
    }
}

proof fn lemma_traced_policies(certs: Seq<PolicyView>, t: Tree, i: int, ps: Seq<Seq<u8>>)
    requires
        traced(certs, t, i),
        i >= 1,
        forall|p: Seq<u8>| #[trigger] ps.contains(p) && p != any_policy() ==> asserted(certs, i, p),
    ensures
        traced(certs, with_policies(t, i, ps), i),
    decreases ps.len(),
{
    if ps.len() > 0 {
        let front = ps.drop_last();
        assert forall|p: Seq<u8>| #[trigger] front.contains(p) && p != any_policy() implies asserted(certs, i, p) by {
            let j = choose|j: int| 0 <= j < front.len() && front[j] == p;
            assert(ps[j] == p);
            assert(ps.contains(p));
        }
        lemma_traced_policies(certs, t, i, front);
        let u = with_policies(t, i, front);
        let p = ps.last();
        assert(ps[ps.len() - 1] == p);
        assert(ps.contains(p));
        if p != any_policy() {
            let q = if expected_above(u, i, p) { p } else { any_policy() };
            lemma_traced_kids(certs, u, i, p, q, u.len() as int);
        }
    }
}

proof fn lemma_traced_children(certs: Seq<PolicyView>, t: Tree, i: int, k: int, ps: Seq<Seq<u8>>)
    requires
        traced(certs, t, i),
        i >= 1,
        live_at(t, k, i - 1),
        forall|j: int| 0 <= j < ps.len() ==> #[trigger] ps[j] == t[k].policy,
        certs[i - 1].policies matches Some(c) && c.contains(any_policy()),
    ensures
        traced(certs, with_children(t, i, k, ps), i),
        with_children(t, i, k, ps).len() >= t.len(),
        with_children(t, i, k, ps)[k] == t[k],
        forall|j: int| 0 <= j < t.len() ==> #[trigger] with_children(t, i, k, ps)[j] == t[j],
    decreases ps.len(),
{
    if ps.len() > 0 {
        assert forall|j: int| 0 <= j < ps.drop_last().len() implies #[trigger] ps.drop_last()[j] == t[k].policy by {
            assert(ps[j] == t[k].policy);
        }
        lemma_traced_children(certs, t, i, k, ps.drop_last());
        let r = with_children(t, i, k, ps.drop_last());
        assert(ps[ps.len() - 1] == t[k].policy);
        if !has_child(r, k, i, ps.last()) {
            lemma_traced_push(certs, r, i, ps.last(), k);
        }
    }
}

proof fn lemma_traced_any(certs: Seq<PolicyView>, t: Tree, i: int, n: int)
    requires
        traced(certs, t, i),
        i >= 1,
        0 <= n <= t.len(),
        certs[i - 1].policies matches Some(c) && c.contains(any_policy()),
    ensures
        traced(certs, with_any(t, i, n), i),
        with_any(t, i, n).len() >= t.len(),
    decreases n,
{
    if n > 0 {
        lemma_traced_any(certs, t, i, n - 1);
        let r = with_any(t, i, n - 1);
        if live_at(r, n - 1, i - 1) {
            assert(node_traced(certs, r, n - 1, i));
            lemma_traced_children(certs, r, i, n - 1, r[n - 1].expected);
        }
    }
}

proof fn lemma_child_keeps(t: Tree, k: int, c: int, j: int, max: int)
    requires
        0 <= k < c <= j < t.len(),
        t[j].parent == Some(k),
        stays(t, j, max),
    ensures
        child_stays(t, k, c, max),
    decreases j - c,
{
    if c < j {
        lemma_child_keeps(t, k, c + 1, j, max);
    }
}

proof fn lemma_traced_pruned(certs: Seq<PolicyView>, t: Tree, i: int, max: int)
    requires
        traced(certs, t, i),
    ensures
        traced(certs, pruned(t, max), i),
{
    let u = pruned(t, max);
    assert forall|k: int| 0 <= k < u.len() implies #[trigger] node_traced(certs, u, k, i) by {
        assert(node_traced(certs, t, k, i));
        if t[k].depth > 0 {
            let q = t[k].parent->0;
            if stays(t, k, max) {
                lemma_child_keeps(t, q, q + 1, k, max);
            }
        }
    }
}

proof fn lemma_traced_grown(certs: Seq<PolicyView>, t: Tree, i: int, inhibit: int, not_last: bool, own: bool)
    requires
        traced(certs, t, i - 1),
        i >= 1,
        certs[i - 1].policies is Some,
    ensures
        traced(certs, grown(t, i, certs[i - 1].policies->0, inhibit, not_last, own), i),
{
    assert forall|k: int| 0 <= k < t.len() implies #[trigger] node_traced(certs, t, k, i) by {
        assert(node_traced(certs, t, k, i - 1));
    }
    if !is_null(t) {
        let ps = certs[i - 1].policies->0;
        law_distinct(ps);
        assert forall|p: Seq<u8>| #[trigger] distinct(ps).contains(p) && p != any_policy() implies asserted(
            certs,
            i,
            p,
        ) by {}
        lemma_traced_policies(certs, t, i, distinct(ps));
        let a = with_policies(t, i, distinct(ps));
        if ps.contains(any_policy()) && (inhibit > 0 || (not_last && own)) {
            lemma_traced_any(certs, a, i, a.len() as int);
            lemma_traced_pruned(certs, with_any(a, i, a.len() as int), i, i);
        } else {
            lemma_traced_pruned(certs, a, i, i);
        }
    }
}

proof fn lemma_traced_state(certs: Seq<PolicyView>, i: int)
    requires
        0 <= i <= certs.len(),
        state_at(certs, true, i) is Ok,
        forall|j: int| 0 <= j < certs.len() ==> (#[trigger] certs[j]).mappings is None,
    ensures
        traced(certs, state_at(certs, true, i)->Ok_0.tree, i),
        state_at(certs, true, i)->Ok_0.explicit_policy == 0,
    decreases i,
{
    if i == 0 {
        let t = initial_tree();
        assert forall|k: int| 0 <= k < t.len() implies #[trigger] node_traced(certs, t, k, 0) by {}
    } else {
        lemma_traced_state(certs, i - 1);
        let st = state_at(certs, true, i - 1)->Ok_0;
        let cert = certs[i - 1];
        assert(cert.mappings is None);
        match cert.policies {
            Some(ps) => {
                lemma_traced_grown(
                    certs,
                    st.tree,
                    i,
                    st.inhibit_any,
                    i < certs.len(),
                    cert.self_issued,
                );
            },
            None => {
                assert(is_null(Seq::<NodeView>::empty()));
            },
        }
    }
}

/// From a node whose policy is `p` or `anyPolicy`, every certificate down to its
/// level asserts one of the two.
proof fn lemma_path_asserts(certs: Seq<PolicyView>, t: Tree, i: int, k: int, p: Seq<u8>)
    requires
        traced(certs, t, i),
        0 <= k < t.len(),
        t[k].policy == p || t[k].policy == any_policy(),
    ensures
        forall|d: int| 1 <= d <= t[k].depth ==> asserted(certs, d, p),
    decreases k,
{
    assert(node_traced(certs, t, k, i));
    if t[k].depth > 0 {
        let q = t[k].parent->0;
        lemma_path_asserts(certs, t, i, q, p);
        assert(asserted(certs, t[k].depth, p));
    }
}

/// A live node that is not doomed stands for an accepted policy or `anyPolicy`.
proof fn lemma_accepted(certs: Seq<PolicyView>, t: Tree, i: int, k: int, accepted: Seq<Seq<u8>>)
    requires
        traced(certs, t, i),
        0 <= k < t.len(),
        t[k].alive,
        !doomed(t, k, accepted),
    ensures
        t[k].policy == any_policy() || accepted.contains(t[k].policy),
    decreases k,
{
    assert(node_traced(certs, t, k, i));
    if t[k].depth > 0 {
        let q = t[k].parent->0;
        assert(!barred(t, k, accepted));
        if t[q].policy != any_policy() {
            lemma_accepted(certs, t, i, q, accepted);
        }
    }
}

/// A node that stays leads to one at depth `max` or below.
proof fn lemma_stays_leads(t: Tree, k: int, max: int) -> (j: int)
    requires
        stays(t, k, max),
    ensures
        0 <= j < t.len(),
        t[j].alive,
        t[j].depth >= max,
    decreases t.len() - k, 1int, 0int,
{
    if t[k].depth >= max {
        k
    } else {
        lemma_child_leads(t, k, k + 1, max)
    }
}

proof fn lemma_child_leads(t: Tree, k: int, c: int, max: int) -> (j: int)
    requires
        child_stays(t, k, c, max),
    ensures
        0 <= j < t.len(),
        t[j].alive,
        t[j].depth >= max,
    decreases t.len() - k, 0int, t.len() - c,
{
    if t[c].parent == Some(k) && stays(t, c, max) {
        lemma_stays_leads(t, c, max)
    } else {
        lemma_child_leads(t, k, c + 1, max)
    }
}

/// Where a policy is required and no certificate maps policies, a path is
/// accepted only if every certificate of it asserts that policy or `anyPolicy`.
pub proof fn law_required_policy_is_asserted(certs: Seq<PolicyView>, p: Seq<u8>)
    requires
        p != any_policy(),
        policies_accepted(certs, seq![p], true) is Ok,
        forall|j: int| 0 <= j < certs.len() ==> (#[trigger] certs[j]).mappings is None,
    ensures
        forall|i: int|
            0 <= i < certs.len() ==> ((#[trigger] certs[i]).policies matches Some(ps) && (ps.contains(p)
                || ps.contains(any_policy()))),
{
    let n = certs.len() as int;
    if n > 0 {
        let st = state_at(certs, true, n)->Ok_0;
        let t = st.tree;
        let accepted = seq![p];
        lemma_traced_state(certs, n);
        assert(accepted[0] == p);
        assert(!accepted.contains(any_policy()));
        let u = intersected(t, n, accepted);
        assert(!is_null(u));
        let k0 = choose|k: int| 0 <= k < u.len() && (#[trigger] u[k]).alive;
        let leaf: int;
        if exists|k: int| stands_for(t, k, n, any_policy()) {
            leaf = choose|k: int| stands_for(t, k, n, any_policy());
        } else {
            let kept = Seq::new(t.len(), |k: int| with_alive(t[k], t[k].alive && !doomed(t, k, accepted)));
            if is_null(t) {
                assert(u == t);
                assert(!t[k0].alive);
            }
            assert(u == pruned(kept, n));
            assert(stays(kept, k0, n));
            leaf = lemma_stays_leads(kept, k0, n);
            assert(kept[leaf] == with_alive(t[leaf], t[leaf].alive && !doomed(t, leaf, accepted)));
            lemma_accepted(certs, t, n, leaf, accepted);
            assert(node_traced(certs, t, leaf, n));
        }
        lemma_path_asserts(certs, t, n, leaf, p);
        assert forall|i: int| 0 <= i < certs.len() implies ((#[trigger] certs[i]).policies matches Some(ps) && (
        ps.contains(p) || ps.contains(any_policy()))) by {
            assert(asserted(certs, i + 1, p));
        }
    }
}

/// No mapping of a certificate names `anyPolicy`.
pub open spec fn maps_no_any(c: PolicyView) -> bool {
    c.mappings matches Some(m) ==> forall|i: int|
        0 <= i < m.len() ==> (#[trigger] m[i]).0 != any_policy() && m[i].1 != any_policy()
}

/// A path in which nothing requires an explicit policy, and no certificate maps from or
/// to `anyPolicy`, is accepted whatever its policies are.
pub proof fn law_no_policy_needed(certs: Seq<PolicyView>, accepted: Seq<Seq<u8>>)
    requires
        forall|j: int|
            0 <= j < certs.len() ==> maps_no_any(#[trigger] certs[j]) && certs[j].require_explicit is None,
    ensures
        policies_accepted(certs, accepted, false) is Ok,
{
    let n = certs.len() as int;
    if n > 0 {
        lemma_counter_stays(certs, n);
        assert(certs[n - 1].require_explicit is None);
    }
}

proof fn lemma_counter_stays(certs: Seq<PolicyView>, i: int)
    requires
        0 <= i <= certs.len(),
        certs.len() > 0,
        forall|j: int|
            0 <= j < certs.len() ==> maps_no_any(#[trigger] certs[j]) && certs[j].require_explicit is None,
    ensures
        state_at(certs, false, i) is Ok,
        state_at(certs, false, i)->Ok_0.explicit_policy >= certs.len() + 1 - (if i < certs.len() {
            i
        } else {
            certs.len() - 1
        }),
    decreases i,
{
    if i > 0 {
        lemma_counter_stays(certs, i - 1);
        assert(maps_no_any(certs[i - 1]));
        let st = state_at(certs, false, i - 1)->Ok_0;
        assert(st.explicit_policy > 0);
    }
}

} // verus!
