//! How far the limits reach that certificates of a path set for those below: when a policy
//! is required, when policies may be mapped, and when `anyPolicy` counts.
use vstd::prelude::*;

use crate::policy::{
    counted, first_any, is_null, limited, map_policies, policies_accepted, state_after, state_at, tree_after,
    PolicyView, Tree,
};
use crate::policy_laws::maps_no_any;

verus! {

/// How many certificates from index `a` up to `b` are issued by another than their subject.
pub open spec fn others(certs: Seq<PolicyView>, a: int, b: int) -> int
    decreases b - a,
{
    if a >= b {
        0
    } else {
        others(certs, a, b - 1) + (if certs[b - 1].self_issued {
            0int
        } else {
            1int
        })
    }
}

/// A limit that certificates set, by index.
pub open spec fn reached(certs: Seq<PolicyView>, limits: Seq<Option<u32>>, i: int, q: int) -> bool {
    exists|j: int| 0 <= j < i && (#[trigger] limits[j]) is Some && limits[j]->0 <= q + others(certs, j + 1, i)
}

/// The limits on `anyPolicy`.
pub open spec fn any_limits(certs: Seq<PolicyView>) -> Seq<Option<u32>> {
    Seq::new(certs.len(), |j: int| certs[j].inhibit_any)
}

/// The limits on mapping.
pub open spec fn mapping_limits(certs: Seq<PolicyView>) -> Seq<Option<u32>> {
    Seq::new(certs.len(), |j: int| certs[j].inhibit_mapping)
}

/// How many certificates may follow without an explicit policy.
pub open spec fn explicit_limits(certs: Seq<PolicyView>) -> Seq<Option<u32>> {
    Seq::new(certs.len(), |j: int| certs[j].require_explicit)
}

spec fn counter(certs: Seq<PolicyView>, limits: Seq<Option<u32>>, init: int, i: int) -> int
    decreases i,
{
    if i <= 0 {
        init
    } else {
        limited(counted(counter(certs, limits, init, i - 1), certs[i - 1].self_issued), limits[i - 1])
    }
}

proof fn lemma_counter(certs: Seq<PolicyView>, limits: Seq<Option<u32>>, init: int, i: int, q: int)
    requires
        0 <= i <= certs.len(),
        limits.len() == certs.len(),
        0 <= q,
        0 <= init,
    ensures
        counter(certs, limits, init, i) > q <==> init > q + others(certs, 0, i) && !reached(certs, limits, i, q),
        counter(certs, limits, init, i) >= 0,
    decreases i,
{
    if i > 0 {
        let own = certs[i - 1].self_issued;
        let step = if own {
            0int
        } else {
            1int
        };
        lemma_counter(certs, limits, init, i - 1, q);
        lemma_counter(certs, limits, init, i - 1, q + step);
        let c = counter(certs, limits, init, i - 1);
        assert(counted(c, own) > q <==> c > q + step);
        assert(others(certs, 0, i) == others(certs, 0, i - 1) + step);
        if reached(certs, limits, i - 1, q + step) {
            let j = choose|j: int|
                0 <= j < i - 1 && (#[trigger] limits[j]) is Some && limits[j]->0 <= q + step + others(certs, j + 1, i - 1);
            assert(others(certs, j + 1, i) == others(certs, j + 1, i - 1) + step);
            assert(limits[j] is Some);
        }
        if limits[i - 1] matches Some(m) && m <= q {
            assert(others(certs, i - 1 + 1, i) == 0);
            assert(limits[i - 1] is Some);
        }
        if reached(certs, limits, i, q) {
            let j = choose|j: int|
                0 <= j < i && (#[trigger] limits[j]) is Some && limits[j]->0 <= q + others(certs, j + 1, i);
            if j < i - 1 {
                assert(others(certs, j + 1, i) == others(certs, j + 1, i - 1) + step);
                assert(reached(certs, limits, i - 1, q + step));
            } else {
                assert(others(certs, j + 1, i) == 0);
            }
        }
    }
}

proof fn lemma_others(certs: Seq<PolicyView>, a: int, b: int)
    requires
        a <= b,
    ensures
        0 <= others(certs, a, b) <= b - a,
    decreases b - a,
{
    if a < b {
        lemma_others(certs, a, b - 1);
    }
}

proof fn lemma_counters(certs: Seq<PolicyView>, explicit: bool, i: int)
    requires
        0 <= i < certs.len(),
        state_at(certs, explicit, i) is Ok,
    ensures
        ({
            let st = state_at(certs, explicit, i)->Ok_0;
            let n = certs.len() as int;
            &&& st.inhibit_any == counter(certs, any_limits(certs), n + 1, i)
            &&& st.policy_mapping == counter(certs, mapping_limits(certs), n + 1, i)
            &&& st.explicit_policy == counter(
                certs,
                explicit_limits(certs),
                if explicit {
                    0
                } else {
                    n + 1
                },
                i,
            )
        }),
    decreases i,
{
    if i > 0 {
        lemma_counters(certs, explicit, i - 1);
        assert(any_limits(certs)[i - 1] == certs[i - 1].inhibit_any);
        assert(mapping_limits(certs)[i - 1] == certs[i - 1].inhibit_mapping);
        assert(explicit_limits(certs)[i - 1] == certs[i - 1].require_explicit);
    }
}

/// Before certificate `i` of a path, from the root down, a limit that a certificate above
/// set is used up exactly if as many certificates followed it that did not issue
/// themselves. Without limits policies may be mapped and `anyPolicy` counts; an explicit
/// policy is required where the caller asks for one or such a limit is used up.
pub proof fn law_limits_are_counted(certs: Seq<PolicyView>, explicit: bool, i: int)
    requires
        0 <= i < certs.len(),
        state_at(certs, explicit, i) is Ok,
    ensures
        ({
            let st = state_at(certs, explicit, i)->Ok_0;
            &&& st.inhibit_any > 0 <==> !reached(certs, any_limits(certs), i, 0)
            &&& st.policy_mapping > 0 <==> !reached(certs, mapping_limits(certs), i, 0)
            &&& st.explicit_policy > 0 <==> !explicit && !reached(certs, explicit_limits(certs), i, 0)
            &&& st.explicit_policy > 1 <==> !explicit && !reached(certs, explicit_limits(certs), i, 1)
            &&& st.explicit_policy >= 0
        }),
{
    let n = certs.len() as int;
    lemma_counters(certs, explicit, i);
    lemma_others(certs, 0, i);
    lemma_counter(certs, any_limits(certs), n + 1, i, 0);
    lemma_counter(certs, mapping_limits(certs), n + 1, i, 0);
    lemma_counter(certs, explicit_limits(certs), if explicit { 0 } else { n + 1 }, i, 0);
    lemma_counter(certs, explicit_limits(certs), if explicit { 0 } else { n + 1 }, i, 1);
}

/// An explicit policy is required at certificate `i` of a path, or at its end.
pub open spec fn policy_required(certs: Seq<PolicyView>, explicit: bool, i: int) -> bool {
    let n = certs.len() as int;
    ||| explicit
    ||| 0 <= i < n && reached(certs, explicit_limits(certs), i, 0)
    ||| i == n && (certs[n - 1].require_explicit == Some(0u32) || reached(certs, explicit_limits(certs), n - 1, 1))
}

proof fn lemma_null_mapped(t: Tree, depth: int, maps: Seq<(Seq<u8>, Seq<u8>)>, ps: Seq<Seq<u8>>, allowed: bool)
    requires
        is_null(t),
    ensures
        is_null(map_policies(t, depth, maps, ps, allowed)),
    decreases ps.len(),
{
    if ps.len() > 0 {
        lemma_null_mapped(t, depth, maps, ps.drop_last(), allowed);
        let u = map_policies(t, depth, maps, ps.drop_last(), allowed);
        lemma_no_any(u, depth, 0);
        let v = map_policies(t, depth, maps, ps, allowed);
        assert forall|k: int| 0 <= k < v.len() implies !(#[trigger] v[k]).alive by {
            assert(!u[k].alive);
        }
    }
}

proof fn lemma_no_any(t: Tree, depth: int, k: int)
    requires
        is_null(t),
    ensures
        first_any(t, depth, k) is None,
    decreases t.len() - k,
{
    if 0 <= k < t.len() {
        assert(!t[k].alive);
        lemma_no_any(t, depth, k + 1);
    }
}

proof fn lemma_null_stays(certs: Seq<PolicyView>, explicit: bool, k: int, i: int)
    requires
        0 <= k < i <= certs.len(),
        certs[k].policies is None,
        state_at(certs, explicit, i) is Ok,
    ensures
        is_null(state_at(certs, explicit, i)->Ok_0.tree),
    decreases i,
{
    let st = state_at(certs, explicit, i - 1)->Ok_0;
    let cert = certs[i - 1];
    if k < i - 1 {
        lemma_null_stays(certs, explicit, k, i - 1);
    }
    let t = tree_after(st, cert, i, certs.len() as int)->Ok_0;
    assert(is_null(t));
    if i < certs.len() {
        if let Some(maps) = cert.mappings {
            lemma_null_mapped(t, i, maps, crate::policy::issuer_policies(maps), st.policy_mapping > 0);
        }
    }
}

proof fn lemma_state_before(certs: Seq<PolicyView>, explicit: bool, i: int, j: int)
    requires
        0 <= i <= j,
        state_at(certs, explicit, j) is Ok,
    ensures
        state_at(certs, explicit, i) is Ok,
    decreases j - i,
{
    if i < j {
        lemma_state_before(certs, explicit, i, j - 1);
    }
}

/// Where a policy is required, a path is accepted only if every certificate up to there
/// asserts some.
pub proof fn law_required_policy_needs_policies(
    certs: Seq<PolicyView>,
    accepted: Seq<Seq<u8>>,
    explicit: bool,
    i: int,
    k: int,
)
    requires
        policies_accepted(certs, accepted, explicit) is Ok,
        0 <= k < certs.len(),
        k <= i <= certs.len(),
        policy_required(certs, explicit, i),
    ensures
        certs[k].policies is Some,
{
    let n = certs.len() as int;
    if certs[k].policies is None {
        if i < n {
            lemma_state_before(certs, explicit, i + 1, n);
            lemma_state_before(certs, explicit, i, n);
            law_limits_are_counted(certs, explicit, i);
            let st = state_at(certs, explicit, i)->Ok_0;
            if k < i {
                lemma_null_stays(certs, explicit, k, i);
            }
            assert(state_after(st, certs[i], i + 1, n) is Ok);
        } else {
            lemma_null_stays(certs, explicit, k, n);
            lemma_state_before(certs, explicit, n - 1, n);
            law_limits_are_counted(certs, explicit, n - 1);
            let st = state_at(certs, explicit, n)->Ok_0;
            assert(st.explicit_policy == state_at(certs, explicit, n - 1)->Ok_0.explicit_policy);
        }
    }
}

/// Where no policy is required anywhere, and no certificate maps from or to `anyPolicy`, a
/// path is accepted whatever its policies are.
pub proof fn law_no_policy_required(certs: Seq<PolicyView>, accepted: Seq<Seq<u8>>)
    requires
        forall|i: int| 0 <= i <= certs.len() ==> !#[trigger] policy_required(certs, false, i),
        forall|j: int| 0 <= j < certs.len() ==> maps_no_any(#[trigger] certs[j]),
    ensures
        policies_accepted(certs, accepted, false) is Ok,
{
    let n = certs.len() as int;
    if n > 0 {
        lemma_goes_through(certs, n);
        lemma_goes_through(certs, n - 1);
        law_limits_are_counted(certs, false, n - 1);
        assert(!policy_required(certs, false, n));
        let st = state_at(certs, false, n)->Ok_0;
        assert(st.explicit_policy == state_at(certs, false, n - 1)->Ok_0.explicit_policy);
    }
}

proof fn lemma_goes_through(certs: Seq<PolicyView>, i: int)
    requires
        0 <= i <= certs.len(),
        forall|i: int| 0 <= i <= certs.len() ==> !#[trigger] policy_required(certs, false, i),
        forall|j: int| 0 <= j < certs.len() ==> maps_no_any(#[trigger] certs[j]),
    ensures
        state_at(certs, false, i) is Ok,
    decreases i,
{
    if i > 0 {
        lemma_goes_through(certs, i - 1);
        law_limits_are_counted(certs, false, i - 1);
        assert(!policy_required(certs, false, i - 1));
        assert(maps_no_any(certs[i - 1]));
        let st = state_at(certs, false, i - 1)->Ok_0;
        assert(st.explicit_policy > 0);
    }
}

} // verus!
