//! RFC 5280 §6.1 certificate **policy** processing: the `valid_policy_tree`,
//! policy mapping, and the explicit-policy / policy-mapping / inhibit-anyPolicy
//! counters.
//!
//! Policies are object identifiers, given by the content bytes of their DER
//! encoding.
use vstd::prelude::*;

use crate::util::{blobs, bytes_eq, contains_blob, copy_blobs, distinct, distinct_blobs, to_vec};

verus! {

/// The content bytes of `anyPolicy` (2.5.29.32.0).
pub open spec fn any_policy() -> Seq<u8> {
    seq![0x55u8, 0x1du8, 0x20u8, 0u8]
}

/// The content bytes of `anyPolicy`.
pub fn any_policy_oid() -> (r: Vec<u8>)
    ensures
        r@ == any_policy(),
{
    let r: Vec<u8> = vec![0x55, 0x1d, 0x20, 0];
    assert(r@ =~= any_policy());
    r
}

/// What a certificate says of policies.
#[derive(Debug)]
pub struct PolicyExtensions {
    /// The certificate policies, where it has the extension.
    pub policies: Option<Vec<Vec<u8>>>,
    /// The policy mappings, issuer domain first, where it has the extension.
    pub mappings: Option<Vec<(Vec<u8>, Vec<u8>)>>,
    /// `requireExplicitPolicy` of the policy constraints.
    pub require_explicit: Option<u32>,
    /// `inhibitPolicyMapping` of the policy constraints.
    pub inhibit_mapping: Option<u32>,
    /// The inhibitAnyPolicy extension.
    pub inhibit_any: Option<u32>,
    /// Whether subject and issuer of the certificate are the same.
    pub self_issued: bool,
}

/// What a certificate says of policies, as a mathematical value.
pub struct PolicyView {
    pub policies: Option<Seq<Seq<u8>>>,
    pub mappings: Option<Seq<(Seq<u8>, Seq<u8>)>>,
    pub require_explicit: Option<u32>,
    pub inhibit_mapping: Option<u32>,
    pub inhibit_any: Option<u32>,
    pub self_issued: bool,
}

/// The views of a list of mappings.
pub open spec fn pairs_of(v: Seq<(Vec<u8>, Vec<u8>)>) -> Seq<(Seq<u8>, Seq<u8>)> {
    Seq::new(v.len(), |i: int| (v[i].0@, v[i].1@))
}

impl PolicyExtensions {
    pub open spec fn view(&self) -> PolicyView {
        PolicyView {
            policies: match self.policies {
                Some(p) => Some(blobs(p@)),
                None => None,
            },
            mappings: match self.mappings {
                Some(m) => Some(pairs_of(m@)),
                None => None,
            },
            require_explicit: self.require_explicit,
            inhibit_mapping: self.inhibit_mapping,
            inhibit_any: self.inhibit_any,
            self_issued: self.self_issued,
        }
    }
}

// ---------------------------------------------------------------------------
// The tree

/// A node of the valid-policy tree.
pub struct Node {
    pub depth: usize,
    pub valid_policy: Vec<u8>,
    pub expected: Vec<Vec<u8>>,
    pub parent: Option<usize>,
    pub alive: bool,
}

/// A node of the valid-policy tree as a mathematical value.
pub struct NodeView {
    pub depth: int,
    pub policy: Seq<u8>,
    pub expected: Seq<Seq<u8>>,
    pub parent: Option<int>,
    pub alive: bool,
}

/// A valid-policy tree: nodes in the order in which they were made.
pub type Tree = Seq<NodeView>;

impl Node {
    pub open spec fn view(&self) -> NodeView {
        NodeView {
            depth: self.depth as int,
            policy: self.valid_policy@,
            expected: blobs(self.expected@),
            parent: match self.parent {
                Some(p) => Some(p as int),
                None => None,
            },
            alive: self.alive,
        }
    }
}

/// The tree that a list of nodes stands for.
pub open spec fn tree(v: Seq<Node>) -> Tree {
    Seq::new(v.len(), |i: int| v[i]@)
}

/// Every node was made after its parent.
pub open spec fn rooted(t: Tree) -> bool {
    forall|k: int| 0 <= k < t.len() ==> ((#[trigger] t[k]).parent matches Some(p) ==> 0 <= p < k)
}

/// No node is alive.
pub open spec fn is_null(t: Tree) -> bool {
    forall|k: int| 0 <= k < t.len() ==> !(#[trigger] t[k]).alive
}

/// A node at depth `depth` is alive.
pub open spec fn live_at(t: Tree, k: int, depth: int) -> bool {
    0 <= k < t.len() && t[k].alive && t[k].depth == depth
}

/// A fresh node that expects its own policy.
pub open spec fn child(depth: int, policy: Seq<u8>, parent: int) -> NodeView {
    NodeView { depth, policy, expected: seq![policy], parent: Some(parent), alive: true }
}

// --- pruning -------------------------------------------------------------

/// A node that stays when childless nodes above `max` are removed: it is alive
/// and lies at depth `max` or below, or has a child that stays.
pub open spec fn stays(t: Tree, k: int, max: int) -> bool
    decreases t.len() - k, 1int, 0int,
{
    0 <= k < t.len() && t[k].alive && (t[k].depth >= max || child_stays(t, k, k + 1, max))
}

/// Among the nodes from `c` on, node `k` has a child that stays.
pub open spec fn child_stays(t: Tree, k: int, c: int, max: int) -> bool
    decreases t.len() - k, 0int, t.len() - c,
{
    0 <= k < c < t.len() && ((t[c].parent == Some(k) && stays(t, c, max)) || child_stays(t, k, c + 1, max))
}

/// A node with another liveness.
pub open spec fn with_alive(n: NodeView, alive: bool) -> NodeView {
    NodeView { depth: n.depth, policy: n.policy, expected: n.expected, parent: n.parent, alive }
}

/// The tree without the inner nodes (above depth `max`) that lead nowhere.
pub open spec fn pruned(t: Tree, max: int) -> Tree {
    Seq::new(t.len(), |k: int| with_alive(t[k], stays(t, k, max)))
}

/// Tests whether a node has a child that is alive.
fn has_alive_child(nodes: &Vec<Node>, k: usize) -> (r: bool)
    ensures
        r == (exists|c: int| 0 <= c < nodes@.len() && (#[trigger] nodes@[c]).alive && nodes@[c].parent == Some(k)),
{
    let mut c: usize = 0;
    while c < nodes.len()
        invariant
            c <= nodes.len(),
            forall|j: int| 0 <= j < c ==> !((#[trigger] nodes@[j]).alive && nodes@[j].parent == Some(k)),
        decreases nodes.len() - c,
    {
        if nodes[c].alive {
            if let Some(p) = nodes[c].parent {
                if p == k {
                    return true;
                }
            }
        }
        c += 1;
    }
    false
}

proof fn lemma_child_stays(t: Tree, k: int, c: int, max: int)
    requires
        0 <= k < c,
    ensures
        child_stays(t, k, c, max) <==> exists|j: int|
            c <= j < t.len() && (#[trigger] t[j]).parent == Some(k) && stays(t, j, max),
    decreases t.len() - c,
{
    if c < t.len() {
        lemma_child_stays(t, k, c + 1, max);
    }
}

/// Remove childless internal nodes (depth < `max_depth`).
fn prune(nodes: &mut Vec<Node>, max_depth: usize)
    requires
        rooted(tree(old(nodes)@)),
    ensures
        tree(final(nodes)@) == pruned(tree(old(nodes)@), max_depth as int),
        rooted(tree(final(nodes)@)),
{
    let ghost t = tree(nodes@);
    let mut k: usize = nodes.len();
    while k > 0
        invariant
            k <= nodes.len(),
            nodes.len() == t.len(),
            rooted(t),
            forall|j: int| 0 <= j < t.len() ==> #[trigger] nodes@[j]@ == with_alive(
                t[j],
                if j < k { t[j].alive } else { stays(t, j, max_depth as int) },
            ),
        decreases k,
    {
        let ghost before = nodes@;
        let i: usize = k - 1;
        let keep: bool = !nodes[i].alive || nodes[i].depth >= max_depth || has_alive_child(nodes, i);
        proof {
            lemma_child_stays(t, i as int, i + 1, max_depth as int);
            assert(before[i as int]@ == with_alive(t[i as int], t[i as int].alive));
            assert forall|c: int| 0 <= c < t.len() implies ((#[trigger] before[c]).alive && before[c].parent == Some(i)
                <==> i < c && t[c].parent == Some(i as int) && stays(t, c, max_depth as int)) by {
                assert(before[c]@ == with_alive(
                    t[c],
                    if c < k { t[c].alive } else { stays(t, c, max_depth as int) },
                ));
                assert(t[c].parent matches Some(p) ==> 0 <= p < c);
            }
        }
        if !keep {
            nodes[i].alive = false;
        }
        k = i;
        proof {
            assert forall|j: int| 0 <= j < t.len() implies #[trigger] nodes@[j]@ == with_alive(
                t[j],
                if j < k { t[j].alive } else { stays(t, j, max_depth as int) },
            ) by {
                if j != i {
                    assert(nodes@[j] == before[j]);
                    assert(before[j]@ == with_alive(
                        t[j],
                        if j < i + 1 { t[j].alive } else { stays(t, j, max_depth as int) },
                    ));
                } else {
                    if keep && t[j].alive && t[j].depth < max_depth {
                        let c = choose|c: int|
                            0 <= c < before.len() && (#[trigger] before[c]).alive && before[c].parent == Some(i);
                        assert(t[c].parent == Some(i as int) && stays(t, c, max_depth as int));
                    }
                    if !keep {
                        if stays(t, j, max_depth as int) {
                            let c = choose|c: int|
                                i + 1 <= c < t.len() && (#[trigger] t[c]).parent == Some(i as int) && stays(
                                    t,
                                    c,
                                    max_depth as int,
                                );
                            assert(before[c].alive && before[c].parent == Some(i));
                        }
                    }
                }
            }
        }
    }
    proof {
        assert(tree(nodes@) =~= pruned(t, max_depth as int));
        assert forall|j: int| 0 <= j < tree(nodes@).len() implies ((#[trigger] tree(nodes@)[j]).parent matches Some(p)
            ==> 0 <= p < j) by {
            assert(tree(nodes@)[j].parent == t[j].parent);
        }
    }
}

/// Tests whether no node is alive.
fn tree_is_null(nodes: &Vec<Node>) -> (r: bool)
    ensures
        r == is_null(tree(nodes@)),
{
    let mut k: usize = 0;
    while k < nodes.len()
        invariant
            k <= nodes.len(),
            forall|j: int| 0 <= j < k ==> !(#[trigger] tree(nodes@)[j]).alive,
        decreases nodes.len() - k,
    {
        if nodes[k].alive {
            assert(tree(nodes@)[k as int].alive);
            return false;
        }
        k += 1;
    }
    true
}

// --- growing -------------------------------------------------------------

/// The nodes for policy `p` at `depth`: one under each of the first `n` nodes
/// that is alive one level up and expects `q`.
pub open spec fn kids(t: Tree, depth: int, p: Seq<u8>, q: Seq<u8>, n: int) -> Tree
    decreases n,
{
    if n <= 0 {
        Seq::empty()
    } else {
        let r = kids(t, depth, p, q, n - 1);
        if live_at(t, n - 1, depth - 1) && t[n - 1].expected.contains(q) {
            r.push(child(depth, p, n - 1))
        } else {
            r
        }
    }
}

/// A node one level above `depth` is alive and expects `q`.
pub open spec fn expected_above(t: Tree, depth: int, q: Seq<u8>) -> bool {
    exists|k: int| live_at(t, k, depth - 1) && (#[trigger] t[k]).expected.contains(q)
}

/// §6.1.3 (d)(1): the tree with the nodes for one explicit policy, under the
/// nodes that expect it, otherwise under those that expect `anyPolicy`.
pub open spec fn with_policy(t: Tree, depth: int, p: Seq<u8>) -> Tree {
    if p == any_policy() {
        t
    } else {
        t + kids(t, depth, p, if expected_above(t, depth, p) { p } else { any_policy() }, t.len() as int)
    }
}

/// The tree with the nodes for all explicit policies.
pub open spec fn with_policies(t: Tree, depth: int, ps: Seq<Seq<u8>>) -> Tree
    decreases ps.len(),
{
    if ps.len() == 0 {
        t
    } else {
        with_policy(with_policies(t, depth, ps.drop_last()), depth, ps.last())
    }
}

/// Node `k` has a child that is alive at `depth` and stands for policy `p`.
pub open spec fn has_child(t: Tree, k: int, depth: int, p: Seq<u8>) -> bool {
    exists|c: int| live_at(t, c, depth) && (#[trigger] t[c]).parent == Some(k) && t[c].policy == p
}

/// The tree with a child of node `k` for each policy of `ps` that has none.
pub open spec fn with_children(t: Tree, depth: int, k: int, ps: Seq<Seq<u8>>) -> Tree
    decreases ps.len(),
{
    if ps.len() == 0 {
        t
    } else {
        let r = with_children(t, depth, k, ps.drop_last());
        if has_child(r, k, depth, ps.last()) {
            r
        } else {
            r.push(child(depth, ps.last(), k))
        }
    }
}

/// §6.1.3 (d)(2): the tree with a child for every policy that the first `n` nodes,
/// as far as alive one level up, expect.
pub open spec fn with_any(t: Tree, depth: int, n: int) -> Tree
    decreases n,
{
    if n <= 0 {
        t
    } else {
        let r = with_any(t, depth, n - 1);
        if live_at(r, n - 1, depth - 1) {
            with_children(r, depth, n - 1, r[n - 1].expected)
        } else {
            r
        }
    }
}

/// §6.1.3 (d): the tree grown at `depth` from a certificate's policies. What
/// `anyPolicy` brings counts only if it is not inhibited, or in a self-issued
/// certificate that is not the last.
pub open spec fn grown(
    t: Tree,
    depth: int,
    policies: Seq<Seq<u8>>,
    inhibit_any: int,
    not_last: bool,
    self_issued: bool,
) -> Tree {
    if is_null(t) {
        t
    } else {
        let a = with_policies(t, depth, distinct(policies));
        let b = if policies.contains(any_policy()) && (inhibit_any > 0 || (not_last && self_issued)) {
            with_any(a, depth, a.len() as int)
        } else {
            a
        };
        pruned(b, depth)
    }
}

/// Appends a fresh node that expects its own policy.
fn add_child(nodes: &mut Vec<Node>, depth: usize, policy: &[u8], parent: usize)
    requires
        rooted(tree(old(nodes)@)),
        parent < old(nodes).len(),
    ensures
        tree(final(nodes)@) == tree(old(nodes)@).push(child(depth as int, policy@, parent as int)),
        rooted(tree(final(nodes)@)),
{
    let ghost t = tree(nodes@);
    let expected: Vec<Vec<u8>> = vec![to_vec(policy)];
    assert(blobs(expected@) =~= seq![policy@]);
    nodes.push(Node { depth, valid_policy: to_vec(policy), expected, parent: Some(parent), alive: true });
    proof {
        let c = child(depth as int, policy@, parent as int);
        assert(nodes@[nodes@.len() - 1]@ == c);
        assert(tree(nodes@) =~= t.push(c));
        lemma_rooted_push(t, c);
    }
}

proof fn lemma_rooted_push(t: Tree, n: NodeView)
    requires
        rooted(t),
        n.parent matches Some(p) ==> 0 <= p < t.len(),
    ensures
        rooted(t.push(n)),
{
    let u = t.push(n);
    assert forall|k: int| 0 <= k < u.len() implies ((#[trigger] u[k]).parent matches Some(p) ==> 0 <= p < k) by {
        if k < t.len() {
            assert(u[k] == t[k]);
        }
    }
}

/// Tests whether a node one level above `depth` is alive and expects `q`.
fn is_expected_above(nodes: &Vec<Node>, depth: usize, q: &[u8]) -> (r: bool)
    requires
        depth >= 1,
    ensures
        r == expected_above(tree(nodes@), depth as int, q@),
{
    let mut k: usize = 0;
    while k < nodes.len()
        invariant
            depth >= 1,
            k <= nodes.len(),
            forall|j: int|
                0 <= j < k ==> !(live_at(tree(nodes@), j, depth - 1) && (#[trigger] tree(nodes@)[j]).expected.contains(
                    q@,
                )),
        decreases nodes.len() - k,
    {
        if nodes[k].alive && nodes[k].depth == depth - 1 && contains_blob(&nodes[k].expected, q) {
            assert(live_at(tree(nodes@), k as int, depth - 1) && tree(nodes@)[k as int].expected.contains(q@));
            return true;
        }
        k += 1;
    }
    false
}

/// §6.1.3 (d)(1): adds the nodes for one explicit policy.
fn add_policy(nodes: &mut Vec<Node>, depth: usize, p: &[u8])
    requires
        depth >= 1,
        rooted(tree(old(nodes)@)),
    ensures
        tree(final(nodes)@) == with_policy(tree(old(nodes)@), depth as int, p@),
        rooted(tree(final(nodes)@)),
{
    let any: Vec<u8> = any_policy_oid();
    if bytes_eq(p, &any) {
        return ;
    }
    let ghost t = tree(nodes@);
    let q: Vec<u8> = if is_expected_above(nodes, depth, p) { to_vec(p) } else { any };
    let n: usize = nodes.len();
    let mut k: usize = 0;
    assert(t + kids(t, depth as int, p@, q@, 0) =~= t);
    while k < n
        invariant
            depth >= 1,
            k <= n,
            n == t.len(),
            n <= nodes.len(),
            rooted(tree(nodes@)),
            tree(nodes@) == t + kids(t, depth as int, p@, q@, k as int),
        decreases n - k,
    {
        assert(tree(nodes@)[k as int] == t[k as int]);
        if nodes[k].alive && nodes[k].depth == depth - 1 && contains_blob(&nodes[k].expected, &q) {
            add_child(nodes, depth, p, k);
            assert(tree(nodes@) =~= t + kids(t, depth as int, p@, q@, k + 1));
        }
        k += 1;
    }
}

/// Tests whether node `k` has a child that is alive at `depth` and stands for
/// policy `p`.
fn has_child_with_policy(nodes: &Vec<Node>, k: usize, depth: usize, p: &[u8]) -> (r: bool)
    ensures
        r == has_child(tree(nodes@), k as int, depth as int, p@),
{
    let mut c: usize = 0;
    while c < nodes.len()
        invariant
            c <= nodes.len(),
            forall|j: int|
                0 <= j < c ==> !(live_at(tree(nodes@), j, depth as int) && (#[trigger] tree(nodes@)[j]).parent == Some(
                    k as int,
                ) && tree(nodes@)[j].policy == p@),
        decreases nodes.len() - c,
    {
        let mine: bool = match nodes[c].parent {
            Some(x) => x == k,
            None => false,
        };
        if mine && nodes[c].alive && nodes[c].depth == depth && bytes_eq(&nodes[c].valid_policy, p) {
            assert(live_at(tree(nodes@), c as int, depth as int) && tree(nodes@)[c as int].parent == Some(k as int)
                && tree(nodes@)[c as int].policy == p@);
            return true;
        }
        c += 1;
    }
    false
}

/// Adds a child of node `k` for each policy that it expects and has none for.
fn add_expected(nodes: &mut Vec<Node>, depth: usize, k: usize)
    requires
        k < old(nodes).len(),
        rooted(tree(old(nodes)@)),
    ensures
        tree(final(nodes)@) == with_children(
            tree(old(nodes)@),
            depth as int,
            k as int,
            tree(old(nodes)@)[k as int].expected,
        ),
        rooted(tree(final(nodes)@)),
        final(nodes).len() >= old(nodes).len(),
{
    let ghost t = tree(nodes@);
    let expected: Vec<Vec<u8>> = copy_blobs(&nodes[k].expected);
    assert(blobs(expected@) =~= t[k as int].expected);
    let mut i: usize = 0;
    while i < expected.len()
        invariant
            i <= expected.len(),
            k < t.len() <= nodes.len(),
            rooted(tree(nodes@)),
            tree(nodes@) == with_children(t, depth as int, k as int, blobs(expected@).take(i as int)),
        decreases expected.len() - i,
    {
        proof {
            let w = blobs(expected@).take(i + 1);
            assert(w.drop_last() =~= blobs(expected@).take(i as int));
            assert(w.last() == expected@[i as int]@);
        }
        if !has_child_with_policy(nodes, k, depth, &expected[i]) {
            add_child(nodes, depth, &expected[i], k);
            assert(tree(nodes@).len() == nodes@.len());
        }
        i += 1;
    }
    assert(blobs(expected@).take(i as int) =~= blobs(expected@));
}

/// §6.1.3 (d): grow the tree at `depth` from a certificate's policies.
pub fn update_tree(
    nodes: &mut Vec<Node>,
    depth: usize,
    policies: &Vec<Vec<u8>>,
    inhibit_any: usize,
    not_last: bool,
    self_issued: bool,
)
    requires
        depth >= 1,
        rooted(tree(old(nodes)@)),
    ensures
        tree(final(nodes)@) == grown(
            tree(old(nodes)@),
            depth as int,
            blobs(policies@),
            inhibit_any as int,
            not_last,
            self_issued,
        ),
        rooted(tree(final(nodes)@)),
{
    if tree_is_null(nodes) {
        return ;
    }
    let ghost t = tree(nodes@);
    let ps: Vec<Vec<u8>> = distinct_blobs(policies);
    let mut i: usize = 0;
    while i < ps.len()
        invariant
            depth >= 1,
            i <= ps.len(),
            rooted(tree(nodes@)),
            tree(nodes@) == with_policies(t, depth as int, blobs(ps@).take(i as int)),
        decreases ps.len() - i,
    {
        add_policy(nodes, depth, &ps[i]);
        proof {
            let w = blobs(ps@).take(i + 1);
            assert(w.drop_last() =~= blobs(ps@).take(i as int));
            assert(w.last() == ps@[i as int]@);
        }
        i += 1;
    }
    assert(blobs(ps@).take(i as int) =~= blobs(ps@));
    if contains_blob(policies, &any_policy_oid()) && (inhibit_any > 0 || (not_last && self_issued)) {
        let ghost a = tree(nodes@);
        let n: usize = nodes.len();
        let mut k: usize = 0;
        while k < n
            invariant
                depth >= 1,
                k <= n,
                n == a.len(),
                n <= nodes.len(),
                rooted(tree(nodes@)),
                tree(nodes@) == with_any(a, depth as int, k as int),
            decreases n - k,
        {
            assert(tree(nodes@)[k as int] == nodes@[k as int]@);
            if nodes[k].alive && nodes[k].depth == depth - 1 {
                add_expected(nodes, depth, k);
            }
            k += 1;
        }
    }
    prune(nodes, depth);
}

// --- mapping -------------------------------------------------------------

/// A mapping from or to `anyPolicy`.
pub open spec fn maps_any(maps: Seq<(Seq<u8>, Seq<u8>)>) -> bool {
    exists|i: int|
        0 <= i < maps.len() && ((#[trigger] maps[i]).0 == any_policy() || maps[i].1 == any_policy())
}

/// The issuer-domain policies of mappings, each once.
pub open spec fn issuer_policies(maps: Seq<(Seq<u8>, Seq<u8>)>) -> Seq<Seq<u8>> {
    distinct(Seq::new(maps.len(), |i: int| maps[i].0))
}

/// The subject-domain policies that `p` is mapped to.
pub open spec fn mapped_to(maps: Seq<(Seq<u8>, Seq<u8>)>, p: Seq<u8>) -> Seq<Seq<u8>>
    decreases maps.len(),
{
    if maps.len() == 0 {
        Seq::empty()
    } else {
        let r = mapped_to(maps.drop_last(), p);
        if maps.last().0 == p && !r.contains(maps.last().1) {
            r.push(maps.last().1)
        } else {
            r
        }
    }
}

/// A node with other expected policies.
pub open spec fn with_expected(n: NodeView, expected: Seq<Seq<u8>>) -> NodeView {
    NodeView { depth: n.depth, policy: n.policy, expected, parent: n.parent, alive: n.alive }
}

/// A node that is alive at `depth` and stands for policy `p`.
pub open spec fn stands_for(t: Tree, k: int, depth: int, p: Seq<u8>) -> bool {
    live_at(t, k, depth) && t[k].policy == p
}

/// The first node from `k` on that is alive at `depth` and stands for `anyPolicy`.
pub open spec fn first_any(t: Tree, depth: int, k: int) -> Option<int>
    decreases t.len() - k,
{
    if k < 0 || k >= t.len() {
        None
    } else if stands_for(t, k, depth, any_policy()) {
        Some(k)
    } else {
        first_any(t, depth, k + 1)
    }
}

/// §6.1.4 (b) for one issuer-domain policy. While mapping is allowed, the nodes
/// of that policy expect what it is mapped to; where there is none, a node is
/// made beside the `anyPolicy` node. Otherwise the policy is removed.
pub open spec fn map_policy(t: Tree, depth: int, p: Seq<u8>, to: Seq<Seq<u8>>, allowed: bool) -> Tree {
    if !allowed {
        pruned(
            Seq::new(t.len(), |k: int| with_alive(t[k], t[k].alive && !stands_for(t, k, depth, p))),
            depth,
        )
    } else if exists|k: int| stands_for(t, k, depth, p) {
        Seq::new(t.len(), |k: int| if stands_for(t, k, depth, p) { with_expected(t[k], to) } else { t[k] })
    } else {
        match first_any(t, depth, 0) {
            None => t,
            Some(a) => t.push(
                NodeView { depth, policy: p, expected: to, parent: t[a].parent, alive: true },
            ),
        }
    }
}

/// The tree after the mappings of the first policies of `ps`.
pub open spec fn map_policies(
    t: Tree,
    depth: int,
    maps: Seq<(Seq<u8>, Seq<u8>)>,
    ps: Seq<Seq<u8>>,
    allowed: bool,
) -> Tree
    decreases ps.len(),
{
    if ps.len() == 0 {
        t
    } else {
        map_policy(
            map_policies(t, depth, maps, ps.drop_last(), allowed),
            depth,
            ps.last(),
            mapped_to(maps, ps.last()),
            allowed,
        )
    }
}

/// §6.1.4 (a) and (b): the tree after a certificate's policy mappings, which must
/// not involve `anyPolicy`.
pub open spec fn mapped(t: Tree, depth: int, maps: Seq<(Seq<u8>, Seq<u8>)>, policy_mapping: int) -> Result<
    Tree,
    Seq<char>,
> {
    if maps_any(maps) {
        Err("policy mapping involves anyPolicy"@)
    } else {
        Ok(map_policies(t, depth, maps, issuer_policies(maps), policy_mapping > 0))
    }
}

fn subject_policies(maps: &Vec<(Vec<u8>, Vec<u8>)>, p: &[u8]) -> (r: Vec<Vec<u8>>)
    ensures
        blobs(r@) == mapped_to(pairs_of(maps@), p@),
{
    let mut out: Vec<Vec<u8>> = Vec::new();
    let mut i: usize = 0;
    assert(blobs(out@) =~= Seq::empty());
    while i < maps.len()
        invariant
            i <= maps.len(),
            blobs(out@) == mapped_to(pairs_of(maps@).take(i as int), p@),
        decreases maps.len() - i,
    {
        proof {
            let t = pairs_of(maps@).take(i + 1);
            assert(t.drop_last() =~= pairs_of(maps@).take(i as int));
            assert(t.last() == (maps@[i as int].0@, maps@[i as int].1@));
        }
        if bytes_eq(&maps[i].0, p) && !contains_blob(&out, &maps[i].1) {
            let ghost before = blobs(out@);
            out.push(to_vec(&maps[i].1));
            assert(blobs(out@) =~= before.push(maps@[i as int].1@));
        }
        i += 1;
    }
    assert(pairs_of(maps@).take(i as int) =~= pairs_of(maps@));
    out
}

fn find_any(nodes: &Vec<Node>, depth: usize) -> (r: Option<usize>)
    ensures
        match first_any(tree(nodes@), depth as int, 0) {
            Some(k) => r is Some && r->0 == k && 0 <= k < nodes.len(),
            None => r is None,
        },
{
    let any: Vec<u8> = any_policy_oid();
    let mut k: usize = 0;
    while k < nodes.len()
        invariant
            any@ == any_policy(),
            k <= nodes.len(),
            first_any(tree(nodes@), depth as int, 0) == first_any(tree(nodes@), depth as int, k as int),
        decreases nodes.len() - k,
    {
        if nodes[k].alive && nodes[k].depth == depth && bytes_eq(&nodes[k].valid_policy, &any) {
            return Some(k);
        }
        k += 1;
    }
    None
}

/// §6.1.4 (b) for one issuer-domain policy.
fn apply_mapping(nodes: &mut Vec<Node>, depth: usize, p: &[u8], to: &Vec<Vec<u8>>, allowed: bool)
    requires
        rooted(tree(old(nodes)@)),
    ensures
        tree(final(nodes)@) == map_policy(tree(old(nodes)@), depth as int, p@, blobs(to@), allowed),
        rooted(tree(final(nodes)@)),
{
    let ghost t = tree(nodes@);
    let mut found: bool = false;
    let mut k: usize = 0;
    while k < nodes.len()
        invariant
            k <= nodes.len(),
            nodes.len() == t.len(),
            rooted(t),
            found <==> exists|j: int| j < k && stands_for(t, j, depth as int, p@),
            forall|j: int|
                0 <= j < t.len() ==> (#[trigger] nodes@[j])@ == if j < k && stands_for(t, j, depth as int, p@) {
                    if allowed { with_expected(t[j], blobs(to@)) } else { with_alive(t[j], false) }
                } else {
                    t[j]
                },
        decreases nodes.len() - k,
    {
        let ghost before = nodes@;
        assert(before[k as int]@ == t[k as int]);
        if nodes[k].alive && nodes[k].depth == depth && bytes_eq(&nodes[k].valid_policy, p) {
            assert(stands_for(t, k as int, depth as int, p@));
            found = true;
            if allowed {
                nodes[k].expected = copy_blobs(to);
            } else {
                nodes[k].alive = false;
            }
        }
        k += 1;
        assert forall|j: int| 0 <= j < t.len() implies (#[trigger] nodes@[j])@ == if j < k && stands_for(
            t,
            j,
            depth as int,
            p@,
        ) {
            if allowed { with_expected(t[j], blobs(to@)) } else { with_alive(t[j], false) }
        } else {
            t[j]
        } by {
            if j != k - 1 {
                assert(nodes@[j] == before[j]);
            }
        }
    }
    if !allowed {
        proof {
            let d = Seq::new(t.len(), |k: int| with_alive(t[k], t[k].alive && !stands_for(t, k, depth as int, p@)));
            assert(tree(nodes@) =~= d) by {
                assert forall|j: int| 0 <= j < d.len() implies #[trigger] tree(nodes@)[j] == d[j] by {
                    assert(nodes@[j]@ == if stands_for(t, j, depth as int, p@) {
                        with_alive(t[j], false)
                    } else {
                        t[j]
                    });
                }
            }
            assert forall|j: int| 0 <= j < d.len() implies ((#[trigger] d[j]).parent matches Some(q) ==> 0 <= q
                < j) by {
                assert(d[j].parent == t[j].parent);
            }
        }
        prune(nodes, depth);
    } else if found {
        proof {
            let d = map_policy(t, depth as int, p@, blobs(to@), allowed);
            assert(tree(nodes@) =~= d) by {
                assert forall|j: int| 0 <= j < d.len() implies #[trigger] tree(nodes@)[j] == d[j] by {
                    assert(nodes@[j]@ == if stands_for(t, j, depth as int, p@) {
                        with_expected(t[j], blobs(to@))
                    } else {
                        t[j]
                    });
                }
            }
            assert forall|j: int| 0 <= j < d.len() implies ((#[trigger] d[j]).parent matches Some(q) ==> 0 <= q
                < j) by {
                assert(d[j].parent == t[j].parent);
            }
        }
    } else {
        proof {
            assert(tree(nodes@) =~= t) by {
                assert forall|j: int| 0 <= j < t.len() implies #[trigger] tree(nodes@)[j] == t[j] by {
                    assert(!stands_for(t, j, depth as int, p@));
                    assert(nodes@[j]@ == t[j]);
                }
            }
            assert forall|j: int| !stands_for(t, j, depth as int, p@) by {
                if 0 <= j < t.len() {
                    assert(!(j < k && stands_for(t, j, depth as int, p@)));
                }
            }
        }
        if let Some(a) = find_any(nodes, depth) {
            let parent: Option<usize> = nodes[a].parent;
            assert(tree(nodes@)[a as int].parent == t[a as int].parent);
            nodes.push(
                Node { depth, valid_policy: to_vec(p), expected: copy_blobs(to), parent, alive: true },
            );
            proof {
                let n = NodeView {
                    depth: depth as int,
                    policy: p@,
                    expected: blobs(to@),
                    parent: t[a as int].parent,
                    alive: true,
                };
                assert(nodes@[nodes@.len() - 1]@ == n);
                assert(tree(nodes@) =~= t.push(n));
                lemma_rooted_push(t, n);
            }
        }
    }
}

/// §6.1.4 (b): apply policy mappings at `depth`.
pub fn apply_mappings(nodes: &mut Vec<Node>, depth: usize, maps: &Vec<(Vec<u8>, Vec<u8>)>, policy_mapping: usize) -> (r:
    Result<(), &'static str>)
    requires
        rooted(tree(old(nodes)@)),
    ensures
        match mapped(tree(old(nodes)@), depth as int, pairs_of(maps@), policy_mapping as int) {
            Ok(t) => r is Ok && tree(final(nodes)@) == t && rooted(t),
            Err(e) => r is Err && r->Err_0@ == e && tree(final(nodes)@) == tree(old(nodes)@),
        },
{
    let any: Vec<u8> = any_policy_oid();
    let ghost m = pairs_of(maps@);
    let mut issuers: Vec<Vec<u8>> = Vec::new();
    let mut i: usize = 0;
    while i < maps.len()
        invariant
            i <= maps.len(),
            any@ == any_policy(),
            m == pairs_of(maps@),
            issuers@.len() == i,
            forall|k: int| 0 <= k < i ==> (#[trigger] issuers@[k])@ == m[k].0,
            forall|k: int| 0 <= k < i ==> !((#[trigger] m[k]).0 == any_policy() || m[k].1 == any_policy()),
        decreases maps.len() - i,
    {
        if bytes_eq(&maps[i].0, &any) || bytes_eq(&maps[i].1, &any) {
            assert(m[i as int].0 == any_policy() || m[i as int].1 == any_policy());
            return Err("policy mapping involves anyPolicy");
        }
        issuers.push(to_vec(&maps[i].0));
        assert(m[i as int] == (maps@[i as int].0@, maps@[i as int].1@));
        i += 1;
    }
    assert(blobs(issuers@) =~= Seq::new(m.len(), |i: int| m[i].0));
    let ps: Vec<Vec<u8>> = distinct_blobs(&issuers);
    let ghost t = tree(nodes@);
    let mut k: usize = 0;
    while k < ps.len()
        invariant
            k <= ps.len(),
            m == pairs_of(maps@),
            rooted(tree(nodes@)),
            tree(nodes@) == map_policies(t, depth as int, m, blobs(ps@).take(k as int), policy_mapping > 0),
        decreases ps.len() - k,
    {
        let to: Vec<Vec<u8>> = subject_policies(maps, &ps[k]);
        apply_mapping(nodes, depth, &ps[k], &to, policy_mapping > 0);
        proof {
            let w = blobs(ps@).take(k + 1);
            assert(w.drop_last() =~= blobs(ps@).take(k as int));
            assert(w.last() == ps@[k as int]@);
        }
        k += 1;
    }
    assert(blobs(ps@).take(k as int) =~= blobs(ps@));
    Ok(())
}

// --- intersection --------------------------------------------------------

/// User-supplied policy inputs (RFC 5280 §6.1.1).
#[derive(Debug)]
pub struct PolicyInput {
    /// Acceptable policies. Containing `anyPolicy` means "accept any".
    pub initial_policy_set: Vec<Vec<u8>>,
    /// Whether an explicit acceptable policy is required from the start.
    pub initial_explicit_policy: bool,
}

/// The top of a policy branch, that is a node under an `anyPolicy` node, whose
/// policy is not acceptable.
pub open spec fn barred(t: Tree, k: int, accepted: Seq<Seq<u8>>) -> bool {
    t[k].alive && (t[k].parent matches Some(p) && t[p].policy == any_policy()) && t[k].policy != any_policy()
        && !accepted.contains(t[k].policy)
}

/// A node that is barred, or lies under one that is.
pub open spec fn doomed(t: Tree, k: int, accepted: Seq<Seq<u8>>) -> bool
    decreases k,
{
    barred(t, k, accepted) || (t[k].alive && (t[k].parent matches Some(p) && 0 <= p < k && doomed(t, p, accepted)))
}

/// §6.1.5 (g): the tree intersected with the acceptable policies. An `anyPolicy`
/// node at depth `n` leaves the path unconstrained.
pub open spec fn intersected(t: Tree, n: int, accepted: Seq<Seq<u8>>) -> Tree {
    if is_null(t) || accepted.contains(any_policy()) || (exists|k: int| stands_for(t, k, n, any_policy())) {
        t
    } else {
        pruned(Seq::new(t.len(), |k: int| with_alive(t[k], t[k].alive && !doomed(t, k, accepted))), n)
    }
}

proof fn lemma_first_any(t: Tree, depth: int, k: int)
    requires
        0 <= k,
    ensures
        first_any(t, depth, k) is Some <==> exists|j: int| k <= j && stands_for(t, j, depth, any_policy()),
    decreases t.len() - k,
{
    if k < t.len() && !stands_for(t, k, depth, any_policy()) {
        lemma_first_any(t, depth, k + 1);
    }
}

/// §6.1.5 (g): intersect the tree with the initial policy set. The constrained
/// policies are the nodes whose **parent is anyPolicy** (the top of each policy
/// branch); ones not in the initial set are deleted with their subtrees.
pub fn intersect_initial(nodes: &mut Vec<Node>, n: usize, input: &PolicyInput)
    requires
        rooted(tree(old(nodes)@)),
    ensures
        tree(final(nodes)@) == intersected(tree(old(nodes)@), n as int, blobs(input.initial_policy_set@)),
        rooted(tree(final(nodes)@)),
{
    let any: Vec<u8> = any_policy_oid();
    let ghost t = tree(nodes@);
    let ghost accepted = blobs(input.initial_policy_set@);
    proof {
        lemma_first_any(t, n as int, 0);
    }
    if tree_is_null(nodes) || contains_blob(&input.initial_policy_set, &any) || find_any(nodes, n).is_some() {
        return ;
    }
    assert forall|k: int| !stands_for(t, k, n as int, any_policy()) by {
        if k >= 0 {
            assert(!stands_for(t, k, n as int, any_policy()));
        }
    }
    let mut marks: Vec<bool> = Vec::new();
    let mut k: usize = 0;
    while k < nodes.len()
        invariant
            any@ == any_policy(),
            accepted == blobs(input.initial_policy_set@),
            k <= nodes.len(),
            nodes.len() == t.len(),
            rooted(t),
            marks@.len() == k,
            forall|j: int| 0 <= j < k ==> #[trigger] marks@[j] == doomed(t, j, accepted),
            forall|j: int|
                0 <= j < t.len() ==> (#[trigger] nodes@[j])@ == with_alive(
                    t[j],
                    t[j].alive && !(j < k && doomed(t, j, accepted)),
                ),
        decreases nodes.len() - k,
    {
        let ghost before = nodes@;
        assert(before[k as int]@ == with_alive(t[k as int], t[k as int].alive));
        let mut dead: bool = false;
        if nodes[k].alive {
            if let Some(p) = nodes[k].parent {
                assert(t[k as int].parent == Some(p as int));
                assert(before[p as int]@.policy == t[p as int].policy);
                let top: bool = bytes_eq(&nodes[p].valid_policy, &any) && !bytes_eq(&nodes[k].valid_policy, &any)
                    && !contains_blob(&input.initial_policy_set, &nodes[k].valid_policy);
                dead = top || marks[p];
            }
        }
        assert(dead == doomed(t, k as int, accepted));
        marks.push(dead);
        if dead {
            nodes[k].alive = false;
        }
        k += 1;
        assert forall|j: int| 0 <= j < t.len() implies (#[trigger] nodes@[j])@ == with_alive(
            t[j],
            t[j].alive && !(j < k && doomed(t, j, accepted)),
        ) by {
            if j != k - 1 {
                assert(nodes@[j] == before[j]);
            }
        }
    }
    proof {
        let d = Seq::new(t.len(), |k: int| with_alive(t[k], t[k].alive && !doomed(t, k, accepted)));
        assert(tree(nodes@) =~= d) by {
            assert forall|j: int| 0 <= j < d.len() implies #[trigger] tree(nodes@)[j] == d[j] by {
                assert(nodes@[j]@ == with_alive(t[j], t[j].alive && !doomed(t, j, accepted)));
            }
        }
        assert forall|j: int| 0 <= j < d.len() implies ((#[trigger] d[j]).parent matches Some(q) ==> 0 <= q < j) by {
            assert(d[j].parent == t[j].parent);
        }
    }
    prune(nodes, n);
}

// ---------------------------------------------------------------------------
// The path

/// The state between two certificates of a path.
pub struct PolicyState {
    pub tree: Tree,
    pub explicit_policy: int,
    pub policy_mapping: int,
    pub inhibit_any: int,
}

/// The tree of `anyPolicy` alone.
pub open spec fn initial_tree() -> Tree {
    seq![
        NodeView {
            depth: 0,
            policy: any_policy(),
            expected: seq![any_policy()],
            parent: None,
            alive: true,
        },
    ]
}

/// §6.1.2: the state before the first of `n` certificates.
pub open spec fn initial_state(n: int, explicit: bool) -> PolicyState {
    PolicyState {
        tree: initial_tree(),
        explicit_policy: if explicit { 0 } else { n + 1 },
        policy_mapping: n + 1,
        inhibit_any: n + 1,
    }
}

/// A counter after a certificate: one less, but for a self-issued one, and not
/// below zero.
pub open spec fn counted(c: int, self_issued: bool) -> int {
    if self_issued || c <= 0 { c } else { c - 1 }
}

/// A counter limited by a constraint, where there is one.
pub open spec fn limited(c: int, limit: Option<u32>) -> int {
    match limit {
        Some(m) => if m < c { m as int } else { c },
        None => c,
    }
}

/// §6.1.3 (d), (e) and (f): the tree after certificate `i` of `n`.
pub open spec fn tree_after(st: PolicyState, cert: PolicyView, i: int, n: int) -> Result<Tree, Seq<char>> {
    let t = match cert.policies {
        Some(ps) => grown(st.tree, i, ps, st.inhibit_any, i < n, cert.self_issued),
        None => Seq::empty(),
    };
    if st.explicit_policy == 0 && is_null(t) {
        Err("an explicit certificate policy is required but missing in the path"@)
    } else {
        Ok(t)
    }
}

/// §6.1.3 and §6.1.4: the state after certificate `i` of `n`.
pub open spec fn state_after(st: PolicyState, cert: PolicyView, i: int, n: int) -> Result<PolicyState, Seq<char>> {
    match tree_after(st, cert, i, n) {
        Err(e) => Err(e),
        Ok(t) => if i >= n {
            Ok(PolicyState { tree: t, ..st })
        } else {
            let m = match cert.mappings {
                Some(maps) => mapped(t, i, maps, st.policy_mapping),
                None => Ok(t),
            };
            match m {
                Err(e) => Err(e),
                Ok(t2) => Ok(
                    PolicyState {
                        tree: t2,
                        explicit_policy: limited(
                            counted(st.explicit_policy, cert.self_issued),
                            cert.require_explicit,
                        ),
                        policy_mapping: limited(counted(st.policy_mapping, cert.self_issued), cert.inhibit_mapping),
                        inhibit_any: limited(counted(st.inhibit_any, cert.self_issued), cert.inhibit_any),
                    },
                ),
            }
        },
    }
}

/// The state after the first `i` certificates of a path.
pub open spec fn state_at(certs: Seq<PolicyView>, explicit: bool, i: int) -> Result<PolicyState, Seq<char>>
    decreases i,
{
    if i <= 0 {
        Ok(initial_state(certs.len() as int, explicit))
    } else {
        match state_at(certs, explicit, i - 1) {
            Err(e) => Err(e),
            Ok(st) => state_after(st, certs[i - 1], i, certs.len() as int),
        }
    }
}

/// Whether the policies of a path, anchor-issued first and the leaf last, are
/// acceptable, or why they are not.
pub open spec fn policies_accepted(certs: Seq<PolicyView>, accepted: Seq<Seq<u8>>, explicit: bool) -> Result<
    (),
    Seq<char>,
> {
    let n = certs.len() as int;
    if n == 0 {
        Ok(())
    } else {
        match state_at(certs, explicit, n) {
            Err(e) => Err(e),
            Ok(st) => {
                let left = if certs[n - 1].require_explicit == Some(0u32) {
                    0
                } else {
                    counted(st.explicit_policy, false)
                };
                if left > 0 || !is_null(intersected(st.tree, n, accepted)) {
                    Ok(())
                } else {
                    Err("no acceptable certificate policy survived path validation"@)
                }
            },
        }
    }
}

/// The views of the policies of a path.
pub open spec fn policy_views(certs: Seq<&PolicyExtensions>) -> Seq<PolicyView> {
    Seq::new(certs.len(), |i: int| certs[i]@)
}

fn count(c: usize, self_issued: bool) -> (r: usize)
    ensures
        r == counted(c as int, self_issued),
{
    if self_issued || c == 0 { c } else { c - 1 }
}

fn limit(c: usize, m: Option<u32>) -> (r: usize)
    ensures
        r == limited(c as int, m),
{
    match m {
        Some(v) => if (v as u64) < c as u64 { v as usize } else { c },
        None => c,
    }
}

/// Process the certificate policies of a path. `certs` excludes the trust
/// anchor and is ordered anchor-issued-first … leaf-last. Returns `Err` if the
/// resulting policy state is unacceptable.
pub fn process_policies(certs: &Vec<&PolicyExtensions>, input: &PolicyInput) -> (r: Result<(), &'static str>)
    requires
        certs.len() < usize::MAX,
    ensures
        match policies_accepted(policy_views(certs@), blobs(input.initial_policy_set@), input.initial_explicit_policy) {
            Ok(_) => r is Ok,
            Err(e) => r is Err && r->Err_0@ == e,
        },
{
    let n: usize = certs.len();
    if n == 0 {
        return Ok(());
    }
    let ghost views = policy_views(certs@);
    let ghost explicit = input.initial_explicit_policy;
    let mut nodes: Vec<Node> = Vec::new();
    let root_expected: Vec<Vec<u8>> = vec![any_policy_oid()];
    assert(blobs(root_expected@) =~= seq![any_policy()]);
    nodes.push(
        Node { depth: 0, valid_policy: any_policy_oid(), expected: root_expected, parent: None, alive: true },
    );
    assert(tree(nodes@) =~= initial_tree());
    let mut explicit_policy: usize = if input.initial_explicit_policy { 0 } else { n + 1 };
    let mut policy_mapping: usize = n + 1;
    let mut inhibit_any: usize = n + 1;

    let mut idx: usize = 0;
    while idx < n
        invariant
            idx <= n,
            n == certs.len(),
            0 < n < usize::MAX,
            views == policy_views(certs@),
            explicit == input.initial_explicit_policy,
            rooted(tree(nodes@)),
            state_at(views, explicit, idx as int) == Ok::<PolicyState, Seq<char>>(
                PolicyState {
                    tree: tree(nodes@),
                    explicit_policy: explicit_policy as int,
                    policy_mapping: policy_mapping as int,
                    inhibit_any: inhibit_any as int,
                },
            ),
        decreases n - idx,
    {
        let cert: &PolicyExtensions = certs[idx];
        assert(views[idx as int] == cert@);
        let i: usize = idx + 1;
        match &cert.policies {
            Some(ps) => {
                update_tree(&mut nodes, i, ps, inhibit_any, i < n, cert.self_issued);
            },
            None => {
                nodes = Vec::new();
                assert(tree(nodes@) =~= Seq::empty());
            },
        }
        if explicit_policy == 0 && tree_is_null(&nodes) {
            proof {
                lemma_state_err(views, explicit, i as int, n as int);
            }
            return Err("an explicit certificate policy is required but missing in the path");
        }
        if i < n {
            if let Some(maps) = &cert.mappings {
                match apply_mappings(&mut nodes, i, maps, policy_mapping) {
                    Err(e) => {
                        proof {
                            lemma_state_err(views, explicit, i as int, n as int);
                        }
                        return Err(e);
                    },
                    Ok(()) => {},
                }
            }
            explicit_policy = limit(count(explicit_policy, cert.self_issued), cert.require_explicit);
            policy_mapping = limit(count(policy_mapping, cert.self_issued), cert.inhibit_mapping);
            inhibit_any = limit(count(inhibit_any, cert.self_issued), cert.inhibit_any);
        }
        idx = i;
    }
    assert(views[n - 1] == certs@[n - 1]@);
    explicit_policy = count(explicit_policy, false);
    if let Some(0) = certs[n - 1].require_explicit {
        explicit_policy = 0;
    }
    intersect_initial(&mut nodes, n, input);
    if explicit_policy > 0 || !tree_is_null(&nodes) {
        Ok(())
    } else {
        Err("no acceptable certificate policy survived path validation")
    }
}

proof fn lemma_state_err(certs: Seq<PolicyView>, explicit: bool, i: int, n: int)
    requires
        0 <= i <= n,
        state_at(certs, explicit, i) is Err,
    ensures
        state_at(certs, explicit, n) is Err,
        state_at(certs, explicit, n)->Err_0 == state_at(certs, explicit, i)->Err_0,
    decreases n - i,
{
    if i < n {
        lemma_state_err(certs, explicit, i + 1, n);
    }
}

} // verus!
