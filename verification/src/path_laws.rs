//! The rules of a certificate path, each told of the certificates themselves, and that a
//! leaf is trusted exactly on a path that keeps them.
use vstd::prelude::*;

use crate::certificate::{
    cert_access, cert_alt_names, cert_basic_constraints, cert_crl_points, cert_extended_key_usage, cert_head,
    cert_inhibit_any, cert_key, cert_key_cert_sign, cert_name_constraints, cert_policies, cert_policy_constraints,
    cert_policy_mappings, cert_subject, certificate_of, CertView,
};
use crate::key_laws::law_signature_is_checked;
use crate::names::{excluded_by, permitted_by, ConstraintsView, NameView};
use crate::policy::policies_accepted;
use crate::revocation::{is_revoked, issued};
use crate::revocation_laws::signed_by;
use crate::trust::{
    chain_verdict, constraints_above, finalized, is_among, is_valid_at, link_holds, may_issue, name_checked,
    name_verdict, names_checked, names_of, path_names_checked, path_policies, Context,
};
use crate::trust_laws::{is_intermediate, is_trusted_chain, law_trusted_iff_chain_exists};

verus! {

/// The owner of a certificate issued another one: it is named as the issuer, and its key
/// verifies the signature.
pub open spec fn issued_under(child: CertView, issuer: CertView) -> bool {
    child.core.issuer == issuer.core.subject && signed_by(
        child.core.tbs,
        child.core.signature_oid,
        child.core.signature,
        issuer,
    )
}

/// A certificate is issued by another one exactly if that one is named as the issuer and
/// its key verifies the signature.
pub proof fn law_issuing(child: CertView, issuer: CertView)
    ensures
        issued(child, issuer) <==> issued_under(child, issuer),
{
    if child.core.signature is Some {
        law_signature_is_checked(
            child.core.tbs,
            child.core.signature_oid,
            child.core.signature->0,
            issuer.core.spki,
        );
    }
}

/// A certificate may issue exactly if it is a CA, its key usage, where it has one, has
/// `keyCertSign`, and the number of intermediates below it is within its path length
/// constraint. Without such a constraint there is no limit.
pub proof fn law_who_may_issue(cert: CertView, below: int)
    ensures
        cert.basic_constraints is None ==> !may_issue(cert, below),
        cert.key_cert_sign == Some(false) ==> !may_issue(cert, below),
        cert.basic_constraints matches Some((ca, limit)) ==> {
            &&& !ca ==> !may_issue(cert, below)
            &&& ca && limit is None && cert.key_cert_sign != Some(false) ==> may_issue(cert, below)
            &&& ca && limit is Some && cert.key_cert_sign != Some(false) ==> (may_issue(cert, below) <==> below
                <= limit->0)
        },
{
}

/// The rules for certificate `i` of a path `[leaf, intermediate..., root]`, told of its
/// fields: it is within its validity at `at`.
pub open spec fn within_validity(cert: CertView, at: i64) -> bool {
    cert.subject.not_before <= at && at <= cert.subject.not_after
}

/// A certificate between the leaf and the root: it comes from the pool, is a CA with
/// `keyCertSign` unless it has no key usage, and permits the intermediates below it.
pub open spec fn proper_intermediate(path: Seq<CertView>, i: int, cx: Context) -> bool {
    &&& cx.pool.contains(path[i])
    &&& path[i].basic_constraints matches Some((ca, limit)) && ca && (limit is None || i - 1 <= limit->0)
    &&& path[i].key_cert_sign is None || path[i].key_cert_sign->0
}

/// Each name of certificate `i` of a path, its subject, the mail addresses in it and its
/// alternative names, stands outside every excluded subtree and inside the permitted ones
/// of every certificate above.
pub open spec fn names_permitted(path: Seq<CertView>, i: int) -> bool {
    forall|n: int, j: int, nc: ConstraintsView|
        0 <= n < names_of(path[i]).len() && i < j < path.len() && (#[trigger] path[j]).name_constraints == Some(nc)
            ==> !(#[trigger] excluded_by(names_of(path[i])[n], nc)) && permitted_by(names_of(path[i])[n], nc)
}

/// The names on a path are permitted: those of every certificate below the root, but for
/// intermediates that issued themselves.
pub open spec fn path_permitted(path: Seq<CertView>) -> bool {
    forall|i: int|
        0 <= i < path.len() - 1 && (i == 0 || (#[trigger] path[i]).core.subject != path[i].core.issuer)
            ==> names_permitted(path, i)
}

/// Certificates tell by themselves whether they issued themselves.
pub open spec fn tells_self_issued(path: Seq<CertView>) -> bool {
    forall|i: int|
        0 <= i < path.len() ==> (#[trigger] path[i]).policy.self_issued == (path[i].core.subject == path[i].core.issuer)
}

proof fn lemma_name_checked(name: NameView, ncs: Seq<ConstraintsView>)
    ensures
        name_checked(name, ncs) is Ok <==> forall|k: int|
            0 <= k < ncs.len() ==> !(#[trigger] excluded_by(name, ncs[k])) && permitted_by(name, ncs[k]),
    decreases ncs.len(),
{
    if ncs.len() > 0 {
        let t = ncs.drop_last();
        lemma_name_checked(name, t);
        assert(name_verdict(name, ncs.last()) is Ok <==> !excluded_by(name, ncs.last()) && permitted_by(
            name,
            ncs.last(),
        ));
        assert forall|k: int| 0 <= k < t.len() implies t[k] == #[trigger] ncs[k] by {}
        if forall|k: int| 0 <= k < ncs.len() ==> !(#[trigger] excluded_by(name, ncs[k])) && permitted_by(name, ncs[k]) {
            assert forall|k: int| 0 <= k < t.len() implies !(#[trigger] excluded_by(name, t[k])) && permitted_by(
                name,
                t[k],
            ) by {
                assert(!excluded_by(name, ncs[k]));
            }
            assert(!excluded_by(name, ncs[ncs.len() - 1]));
        }
        if name_checked(name, ncs) is Ok {
            assert forall|k: int| 0 <= k < ncs.len() implies !(#[trigger] excluded_by(name, ncs[k])) && permitted_by(
                name,
                ncs[k],
            ) by {
                if k < t.len() {
                    assert(!excluded_by(name, t[k]));
                }
            }
        }
    }
}

proof fn lemma_names_checked(names: Seq<NameView>, ncs: Seq<ConstraintsView>)
    ensures
        names_checked(names, ncs) is Ok <==> forall|n: int|
            0 <= n < names.len() ==> name_checked(#[trigger] names[n], ncs) is Ok,
    decreases names.len(),
{
    if names.len() > 0 {
        let t = names.drop_last();
        lemma_names_checked(t, ncs);
        if forall|n: int| 0 <= n < names.len() ==> name_checked(#[trigger] names[n], ncs) is Ok {
            assert forall|n: int| 0 <= n < t.len() implies name_checked(#[trigger] t[n], ncs) is Ok by {
                assert(name_checked(names[n], ncs) is Ok);
            }
            assert(name_checked(names[names.len() - 1], ncs) is Ok);
        }
        if names_checked(names, ncs) is Ok {
            assert forall|n: int| 0 <= n < names.len() implies name_checked(#[trigger] names[n], ncs) is Ok by {
                if n < t.len() {
                    assert(name_checked(t[n], ncs) is Ok);
                }
            }
        }
    }
}

/// The constraints above a certificate are those of the certificates above it.
proof fn lemma_constraints_above(path: Seq<CertView>, i: int, nc: ConstraintsView)
    requires
        -1 <= i < path.len(),
    ensures
        constraints_above(path, i).contains(nc) <==> exists|j: int|
            i < j < path.len() && (#[trigger] path[j]).name_constraints == Some(nc),
    decreases path.len() - i,
{
    if i + 1 < path.len() {
        let r = constraints_above(path, i + 1);
        let all = constraints_above(path, i);
        lemma_constraints_above(path, i + 1, nc);
        if r.contains(nc) {
            let k = choose|k: int| 0 <= k < r.len() && r[k] == nc;
            assert(all[k] == nc);
        }
        if path[i + 1].name_constraints == Some(nc) {
            assert(all.last() == nc);
            assert(all[all.len() - 1] == nc);
        }
        if all.contains(nc) {
            let k = choose|k: int| 0 <= k < all.len() && all[k] == nc;
            if k < r.len() {
                assert(r[k] == nc);
                assert(r.contains(nc));
            }
        }
    }
}

proof fn lemma_permitted_at(path: Seq<CertView>, i: int)
    requires
        0 <= i < path.len(),
    ensures
        names_checked(names_of(path[i]), constraints_above(path, i)) is Ok <==> names_permitted(path, i),
{
    let names = names_of(path[i]);
    let ncs = constraints_above(path, i);
    lemma_names_checked(names, ncs);
    if names_checked(names, ncs) is Ok {
        assert forall|n: int, j: int, nc: ConstraintsView|
            0 <= n < names_of(path[i]).len() && i < j < path.len() && (#[trigger] path[j]).name_constraints == Some(
                nc,
            ) implies !(#[trigger] excluded_by(names_of(path[i])[n], nc)) && permitted_by(names_of(path[i])[n], nc) by {
            lemma_constraints_above(path, i, nc);
            assert(name_checked(names[n], ncs) is Ok);
            lemma_name_checked(names[n], ncs);
            let k = choose|k: int| 0 <= k < ncs.len() && ncs[k] == nc;
            assert(!excluded_by(names[n], ncs[k]));
        }
    }
    if names_permitted(path, i) {
        assert forall|n: int| 0 <= n < names.len() implies name_checked(#[trigger] names[n], ncs) is Ok by {
            lemma_name_checked(names[n], ncs);
            assert forall|k: int| 0 <= k < ncs.len() implies !(#[trigger] excluded_by(names[n], ncs[k]))
                && permitted_by(names[n], ncs[k]) by {
                lemma_constraints_above(path, i, ncs[k]);
                assert(ncs.contains(ncs[k]));
                let j = choose|j: int| i < j < path.len() && (#[trigger] path[j]).name_constraints == Some(ncs[k]);
                assert(path[j].name_constraints == Some(ncs[k]));
                assert(!excluded_by(names_of(path[i])[n], ncs[k]));
            }
        }
    }
}

proof fn lemma_path_names(path: Seq<CertView>, i: int)
    requires
        0 <= i <= path.len(),
        tells_self_issued(path),
    ensures
        path_names_checked(path, i) is Ok <==> forall|k: int|
            i <= k < path.len() - 1 && (k == 0 || (#[trigger] path[k]).core.subject != path[k].core.issuer)
                ==> names_permitted(path, k),
    decreases path.len() - i,
{
    if i + 1 < path.len() {
        lemma_path_names(path, i + 1);
        lemma_permitted_at(path, i);
        assert(path[i].policy.self_issued == (path[i].core.subject == path[i].core.issuer));
    }
}

/// The names on a path are accepted exactly if none of them lies in an excluded subtree of
/// a certificate above its own, or outside the permitted ones. The root is not judged, nor
/// is an intermediate that issued itself.
pub proof fn law_names_on_a_path(path: Seq<CertView>)
    requires
        tells_self_issued(path),
    ensures
        path_names_checked(path, 0) is Ok <==> path_permitted(path),
{
    lemma_path_names(path, 0);
}

/// A path on which every rule is kept: each certificate is within its validity, is issued
/// by the one above it and not revoked by it, and those between the leaf and the root may
/// issue; the last one is a root of the store.
pub open spec fn proper_path(path: Seq<CertView>, cx: Context) -> bool {
    &&& path.len() >= 1
    &&& forall|i: int| 0 <= i < path.len() ==> within_validity(#[trigger] path[i], cx.at)
    &&& forall|i: int|
        0 <= i < path.len() - 1 ==> issued_under(#[trigger] path[i], path[i + 1]) && !is_revoked(
            path[i],
            path[i + 1],
            cx.crls,
            cx.ocsps,
            cx.at,
        )
    &&& forall|i: int| 1 <= i < path.len() - 1 ==> #[trigger] proper_intermediate(path, i, cx)
    &&& exists|k: int|
        0 <= k < cx.store.roots.len() && (#[trigger] cx.store.roots[k]).core.der == path[path.len() - 1].core.der
}

/// A leaf is trusted only on a path that keeps every rule: from it, link by link, to a
/// root of the store, with permitted names and with accepted policies.
pub proof fn law_trust_needs_a_proper_path(leaf: CertView, cx: Context) -> (path: Seq<CertView>)
    requires
        chain_verdict(leaf, cx).trusted,
    ensures
        proper_path(path, cx),
        path[0] == leaf,
        path.len() <= 12,
        tells_self_issued(path) ==> path_permitted(path),
        cx.store.required_policy matches Some(p) ==> policies_accepted(path_policies(path), seq![p], true) is Ok,
{
    law_trusted_iff_chain_exists(leaf, cx);
    let path = choose|chain: Seq<CertView>| #[trigger] is_trusted_chain(chain, cx) && chain[0] == leaf;
    let n = path.len() as int;
    assert(path.last() == path[n - 1]);
    assert forall|i: int| 0 <= i < n implies within_validity(#[trigger] path[i], cx.at) by {
        assert(is_valid_at(path[i], cx.at));
    }
    assert forall|i: int| 0 <= i < n - 1 implies issued_under(#[trigger] path[i], path[i + 1]) && !is_revoked(
        path[i],
        path[i + 1],
        cx.crls,
        cx.ocsps,
        cx.at,
    ) by {
        law_issuing(path[i], path[i + 1]);
        if i + 1 < n - 1 {
            assert(is_intermediate(path, i + 1, cx));
        }
        assert(link_holds(path[i], path[i + 1], cx));
    }
    assert forall|i: int| 1 <= i < n - 1 implies #[trigger] proper_intermediate(path, i, cx) by {
        assert(is_intermediate(path, i, cx));
        law_who_may_issue(path[i], i - 1);
    }
    if is_among(path[n - 1], cx.store.roots) {
        let k = choose|k: int| 0 <= k < cx.store.roots.len() && (#[trigger] cx.store.roots[k]).core.der
            == path[n - 1].core.der;
        assert(cx.store.roots[k].core.der == path[n - 1].core.der);
    } else {
        let k = choose|k: int| 0 <= k < cx.store.roots.len() && cx.store.roots[k] == path[n - 1];
        assert(cx.store.roots[k].core.der == path[n - 1].core.der);
    }
    if tells_self_issued(path) {
        law_names_on_a_path(path);
    }
    path
}

/// What is read of a certificate is what stands in it, each part in its place; a
/// certificate is self-issued exactly if its subject is its issuer.
pub proof fn law_certificate_is_read(der: Seq<u8>)
    ensures
        certificate_of(der) is Ok <==> cert_head(der) is Ok && cert_key(der) is Ok && cert_subject(der) is Ok,
        certificate_of(der) matches Ok(c) ==> {
            let (h, k) = (cert_head(der)->Ok_0, cert_key(der)->Ok_0);
            &&& c.core.der == h.der && c.core.tbs == h.tbs && c.core.signature == h.signature
            &&& c.core.signature_oid == h.signature_oid && c.core.issuer == h.issuer && c.core.subject == h.subject
            &&& c.core.serial == h.serial && c.core.spki == k.spki && c.core.key_oid == k.oid
            &&& c.core.key_raw == k.raw && c.core.key_whole == k.whole
            &&& c.subject == cert_subject(der)->Ok_0
            &&& c.basic_constraints == cert_basic_constraints(der)
            &&& c.key_cert_sign == cert_key_cert_sign(der)
            &&& c.extended_key_usage == cert_extended_key_usage(der)
            &&& c.name_constraints == cert_name_constraints(der)
            &&& c.alt_names == cert_alt_names(der)
            &&& c.policy.policies == cert_policies(der) && c.policy.mappings == cert_policy_mappings(der)
            &&& c.policy.inhibit_any == cert_inhibit_any(der)
            &&& c.policy.self_issued == (h.subject == h.issuer)
            &&& c.access == cert_access(der) && c.crl_points == cert_crl_points(der)
            &&& match cert_policy_constraints(der) {
                None => c.policy.require_explicit is None && c.policy.inhibit_mapping is None,
                Some((explicit, mapping)) => c.policy.require_explicit == explicit && c.policy.inhibit_mapping == mapping,
            }
        },
{
}

/// No certificate of the path constrains names, and none asks for a policy or maps one.
pub open spec fn unconstrained(path: Seq<CertView>) -> bool {
    forall|i: int|
        0 <= i < path.len() ==> (#[trigger] path[i]).name_constraints is None && path[i].policy.require_explicit is None
            && path[i].policy.mappings is None
}

/// The policies on a path are accepted: the one that the store requires, or, where it
/// requires none, any.
pub open spec fn policies_permitted(path: Seq<CertView>, required: Option<Seq<u8>>) -> bool {
    match required {
        Some(p) => policies_accepted(path_policies(path), seq![p], true) is Ok,
        None => policies_accepted(path_policies(path), seq![seq![0x55u8, 0x1d, 0x20, 0x00]], false) is Ok,
    }
}

/// The policies of a path are those of its certificates below the root, from the top down.
pub proof fn law_policies_of_a_path(path: Seq<CertView>, j: int)
    requires
        path.len() >= 1,
    ensures
        path_policies(path).len() == path.len() - 1,
        0 <= j < path.len() - 1 ==> path_policies(path)[j] == path[path.len() - 2 - j].policy,
{
}

/// A leaf is trusted on a path that keeps every rule, with permitted names and policies,
/// and ends in a root of the store. At most ten certificates may stand between the leaf and
/// the root, all of them different and none of them a root.
pub proof fn law_permitted_path_is_trusted(path: Seq<CertView>, cx: Context)
    requires
        2 <= path.len() <= 12,
        proper_path(path, cx),
        cx.store.roots.contains(path[path.len() - 1]),
        forall|i: int, k: int|
            0 <= i < path.len() - 1 && 0 <= k < cx.store.roots.len() ==> (#[trigger] path[i]).core.der != (
            #[trigger] cx.store.roots[k]).core.der,
        forall|i: int, j: int|
            0 <= i < j < path.len() - 1 ==> (#[trigger] path[i]).core.der != (#[trigger] path[j]).core.der,
        tells_self_issued(path),
        path_permitted(path),
        policies_permitted(path, cx.store.required_policy),
    ensures
        chain_verdict(path[0], cx).trusted,
{
    let n = path.len() as int;
    assert forall|i: int| 1 <= i < n - 1 implies #[trigger] is_intermediate(path, i, cx) by {
        assert(proper_intermediate(path, i, cx));
        law_who_may_issue(path[i], i - 1);
        law_issuing(path[i - 1], path[i]);
        assert(issued_under(path[i - 1], path[i - 1 + 1]));
        if is_among(path[i], path.take(i)) {
            let k = choose|k: int| 0 <= k < path.take(i).len() && (#[trigger] path.take(i)[k]).core.der
                == path[i].core.der;
            assert(path.take(i)[k] == path[k]);
            assert(path[k].core.der != path[i].core.der);
        }
    }
    assert forall|i: int| 0 <= i < n - 1 implies is_valid_at(#[trigger] path[i], cx.at) && !is_among(
        path[i],
        cx.store.roots,
    ) by {
        assert(within_validity(path[i], cx.at));
    }
    law_issuing(path[n - 2], path[n - 1]);
    assert(issued_under(path[n - 2], path[n - 2 + 1]));
    assert(within_validity(path[n - 1], cx.at));
    assert(path.last() == path[n - 1]);
    law_names_on_a_path(path);
    assert(crate::policy::any_policy() =~= seq![0x55u8, 0x1d, 0x20, 0x00]);
    law_trusted_iff_chain_exists(path[0], cx);
    assert(is_trusted_chain(path, cx));
}

/// A leaf is trusted on a path that keeps every rule and ends in a root of the store, where
/// no policy is required and the path constrains nothing. At most ten certificates may
/// stand between the leaf and the root, all of them different and none of them a root.
pub proof fn law_proper_path_is_trusted(path: Seq<CertView>, cx: Context)
    requires
        2 <= path.len() <= 12,
        proper_path(path, cx),
        cx.store.roots.contains(path[path.len() - 1]),
        forall|i: int, k: int|
            0 <= i < path.len() - 1 && 0 <= k < cx.store.roots.len() ==> (#[trigger] path[i]).core.der != (
            #[trigger] cx.store.roots[k]).core.der,
        forall|i: int, j: int|
            0 <= i < j < path.len() - 1 ==> (#[trigger] path[i]).core.der != (#[trigger] path[j]).core.der,
        cx.store.required_policy is None,
        unconstrained(path),
    ensures
        chain_verdict(path[0], cx).trusted,
{
    let n = path.len() as int;
    assert forall|i: int| 1 <= i < n - 1 implies #[trigger] is_intermediate(path, i, cx) by {
        assert(proper_intermediate(path, i, cx));
        law_who_may_issue(path[i], i - 1);
        law_issuing(path[i - 1], path[i]);
        assert(issued_under(path[i - 1], path[i - 1 + 1]));
        if is_among(path[i], path.take(i)) {
            let k = choose|k: int| 0 <= k < path.take(i).len() && (#[trigger] path.take(i)[k]).core.der
                == path[i].core.der;
            assert(path.take(i)[k] == path[k]);
            assert(path[k].core.der != path[i].core.der);
        }
    }
    assert forall|i: int| 0 <= i < n - 1 implies is_valid_at(#[trigger] path[i], cx.at) && !is_among(
        path[i],
        cx.store.roots,
    ) by {
        assert(within_validity(path[i], cx.at));
    }
    law_issuing(path[n - 2], path[n - 1]);
    assert(issued_under(path[n - 2], path[n - 2 + 1]));
    assert(within_validity(path[n - 1], cx.at));
    assert(path.last() == path[n - 1]);
    lemma_unconstrained(path, cx);
    law_trusted_iff_chain_exists(path[0], cx);
    assert(is_trusted_chain(path, cx));
}

proof fn lemma_unconstrained(path: Seq<CertView>, cx: Context)
    requires
        path.len() >= 1,
        cx.store.required_policy is None,
        unconstrained(path),
    ensures
        finalized(path, cx.store.required_policy).trusted,
{
    lemma_no_constraints(path, 0);
    let certs = path_policies(path);
    assert forall|j: int| 0 <= j < certs.len() implies crate::policy_laws::maps_no_any(#[trigger] certs[j])
        && certs[j].require_explicit is None by {
        let c = path[path.len() - 2 - j];
        assert(certs[j] == c.policy);
    }
    crate::policy_laws::law_no_policy_needed(certs, seq![crate::policy::any_policy()]);
}

proof fn lemma_no_constraints(path: Seq<CertView>, i: int)
    requires
        0 <= i <= path.len(),
        unconstrained(path),
    ensures
        path_names_checked(path, i) is Ok,
    decreases path.len() - i,
{
    if i + 1 < path.len() {
        lemma_no_constraints(path, i + 1);
        lemma_permitted_at(path, i);
        assert(names_permitted(path, i));
    }
}

} // verus!
