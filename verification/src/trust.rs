//! Certificate-chain validation against a trust store.
//!
//! Builds a path from a leaf certificate up to a trusted root, verifying each
//! link's signature and validity window. Intended for validating a signer
//! certificate against the **ICP-Brasil** roots (load them with
//! [`TrustStore::from_pem`]), but works with any root set.
//!
//! The path checks basicConstraints/`keyCertSign`, the validity window, RFC 5280
//! name constraints (§4.2.1.10) and an optional required-policy OID via the
//! policy engine. Not covered: IDP / partitioned CRLs and a hard-fail mode.
use der::Encode;
use vstd::prelude::*;
use vstd::utf8::is_ascii_chars;

use crate::certificate::{all_certificates, cert_views, read_all, CertView, Certificate};
use crate::error::{crypto, Error, ErrorView};
use crate::names::{
    excluded_by, name_excluded, name_permitted, name_views, permitted_by, rdns, ConstraintsView, GeneralName,
    NameConstraints, NameView, Rdn,
};
use crate::oids::{email_address_oid, is_email_address};
use crate::policy::{
    any_policy, any_policy_oid, pairs_of, policies_accepted, policy_views, process_policies, PolicyExtensions,
    PolicyInput, PolicyView,
};
use crate::revocation::{
    crl_views, is_revoked, issued, issued_by, ocsp_views, revoked, Crl, CrlView, Ocsp, OcspView,
};
use crate::text::{arcs_fit, chars_of, from_utf8_lossy, has_fitting_arcs, lossy_text};
use crate::util::{blobs, bytes_eq, to_vec};

verus! {

/// How many intermediates a path may have.
pub const MAX_DEPTH: usize = 10;

// ---------------------------------------------------------------------------
// The trust store

/// A set of trusted root certificates (e.g. the ICP-Brasil AC Raiz set), plus
/// optional validation parameters.
#[derive(Debug)]
pub struct TrustStore {
    roots: Vec<Certificate>,
    required_policy: Option<Vec<u8>>,
}

/// A trust store as a mathematical value.
pub struct StoreView {
    pub roots: Seq<CertView>,
    pub required_policy: Option<Seq<u8>>,
}

/// The certificates of a PEM text in DER, or why it cannot be read.
pub uninterp spec fn pem_chain(pem: Seq<u8>) -> Result<Seq<Seq<u8>>, Seq<char>>;

/// A PEM text that holds something else than line ends.
pub open spec fn has_content(pem: Seq<u8>) -> bool {
    exists|i: int| 0 <= i < pem.len() && #[trigger] pem[i] != 0x0a && pem[i] != 0x0d
}

/// Reads concatenated PEM certificates: `x509_cert::Certificate::load_pem_chain`,
/// and the DER of each. It takes no text that is empty but for line ends.
#[verifier::external_body]
fn load_pem_chain(pem: &[u8]) -> (r: Result<Vec<Vec<u8>>, String>)
    requires
        has_content(pem@),
    ensures
        match r {
            Ok(v) => pem_chain(pem@) == Ok::<Seq<Seq<u8>>, Seq<char>>(blobs(v@)),
            Err(t) => pem_chain(pem@) == Err::<Seq<Seq<u8>>, Seq<char>>(t@),
        },
{
    let certs = x509_cert::Certificate::load_pem_chain(pem).map_err(|e| e.to_string())?;
    certs.iter().map(|c| c.to_der().map_err(|e| e.to_string())).collect()
}

/// The content bytes of an object identifier in dotted notation, or why it is none.
pub uninterp spec fn oid_bytes(text: Seq<char>) -> Result<Seq<u8>, Seq<char>>;

/// Reads an object identifier: `const_oid::ObjectIdentifier::new`. It takes arcs within
/// 32 bits.
#[verifier::external_body]
fn parse_oid(text: &str) -> (r: Result<Vec<u8>, String>)
    requires
        arcs_fit(text@),
    ensures
        match r {
            Ok(v) => oid_bytes(text@) == Ok::<Seq<u8>, Seq<char>>(v@),
            Err(t) => oid_bytes(text@) == Err::<Seq<u8>, Seq<char>>(t@),
        },
{
    const_oid::ObjectIdentifier::new(text).map(|o| o.as_bytes().to_vec()).map_err(|e| e.to_string())
}

/// A policy in dotted notation, or why it is none.
pub open spec fn policy_of(text: Seq<char>) -> Result<Seq<u8>, Seq<char>> {
    if arcs_fit(text) {
        oid_bytes(text)
    } else {
        Err("object identifier out of range"@)
    }
}

/// A store with the certificates of a list as its roots.
pub open spec fn store_of(ders: Seq<Seq<u8>>) -> Result<StoreView, ErrorView> {
    match all_certificates(ders) {
        Err(t) => Err(ErrorView::Crypto(t)),
        Ok(roots) => Ok(StoreView { roots, required_policy: None }),
    }
}

/// The view of the result of making a store.
pub open spec fn store_result(r: Result<TrustStore, Error>) -> Result<StoreView, ErrorView> {
    match r {
        Ok(s) => Ok(s@),
        Err(e) => Err(e@),
    }
}

impl TrustStore {
    pub closed spec fn view(&self) -> StoreView {
        StoreView {
            roots: cert_views(self.roots@),
            required_policy: match self.required_policy {
                Some(p) => Some(p@),
                None => None,
            },
        }
    }

    /// An empty store (no chain validation will succeed).
    pub fn new() -> (r: Self)
        ensures
            r@ == (StoreView { roots: Seq::empty(), required_policy: None }),
    {
        let r = Self { roots: Vec::new(), required_policy: None };
        assert(r@.roots =~= Seq::empty());
        r
    }

    /// Load trusted roots from one or more concatenated PEM certificates.
    pub fn from_pem(pem: &[u8]) -> (r: Result<Self, Error>)
        requires
            has_content(pem@),
        ensures
            store_result(r) == (match pem_chain(pem@) {
                Err(t) => Err(ErrorView::Crypto(t)),
                Ok(ders) => store_of(ders),
            }),
    {
        match load_pem_chain(pem) {
            Err(t) => Err(Error::Crypto(t)),
            Ok(ders) => Self::from_ders(&ders),
        }
    }

    /// Load trusted roots from DER certificate blobs.
    pub fn from_ders(ders: &Vec<Vec<u8>>) -> (r: Result<Self, Error>)
        ensures
            store_result(r) == store_of(blobs(ders@)),
    {
        match read_all(ders) {
            Err(t) => Err(Error::Crypto(t)),
            Ok(roots) => Ok(Self { roots, required_policy: None }),
        }
    }

    /// Require that the certificate path asserts a given policy OID (e.g. an
    /// ICP-Brasil policy). Validation then fails unless the policies of the path
    /// allow it.
    pub fn require_policy(self, oid: &str) -> (r: Result<Self, Error>)
        ensures
            store_result(r) == (match policy_of(oid@) {
                Err(t) => Err(ErrorView::Crypto(t)),
                Ok(p) => Ok(StoreView { roots: self@.roots, required_policy: Some(p) }),
            }),
    {
        if !has_fitting_arcs(oid) {
            return Err(crypto("object identifier out of range"));
        }
        match parse_oid(oid) {
            Err(t) => Err(Error::Crypto(t)),
            Ok(p) => Ok(Self { roots: self.roots, required_policy: Some(p) }),
        }
    }

    /// Whether the store has no root.
    pub fn is_empty(&self) -> (r: bool)
        ensures
            r == (self@.roots.len() == 0),
    {
        self.roots.len() == 0
    }

    /// The number of roots.
    pub fn len(&self) -> (r: usize)
        ensures
            r == self@.roots.len(),
    {
        self.roots.len()
    }
}

// ---------------------------------------------------------------------------
// Results

/// Outcome of building/validating a certificate path.
#[derive(Debug)]
pub struct ChainResult {
    pub trusted: bool,
    pub detail: String,
}

/// A chain result as a mathematical value.
pub struct ChainView {
    pub trusted: bool,
    pub detail: Seq<char>,
}

impl ChainResult {
    pub open spec fn view(&self) -> ChainView {
        ChainView { trusted: self.trusted, detail: self.detail@ }
    }
}

/// A path that is trusted.
pub open spec fn success(detail: Seq<char>) -> ChainView {
    ChainView { trusted: true, detail }
}

/// A path that is not trusted.
pub open spec fn failure(detail: Seq<char>) -> ChainView {
    ChainView { trusted: false, detail }
}

/// A path that is trusted.
pub fn ok(detail: &str) -> (r: ChainResult)
    ensures
        r@ == success(detail@),
{
    ChainResult { trusted: true, detail: detail.to_owned() }
}

/// A path that is not trusted.
pub fn fail(detail: &str) -> (r: ChainResult)
    ensures
        r@ == failure(detail@),
{
    ChainResult { trusted: false, detail: detail.to_owned() }
}

// ---------------------------------------------------------------------------
// Name constraints

/// The mail addresses among the attributes of a part of a name.
pub open spec fn rdn_emails(rdn: Rdn) -> Seq<NameView>
    decreases rdn.len(),
{
    if rdn.len() == 0 {
        Seq::empty()
    } else {
        let r = rdn_emails(rdn.drop_last());
        let text = lossy_text(rdn.last().1);
        if rdn.last().0 == email_address_oid() && is_ascii_chars(text) {
            r.push(NameView::Email(text))
        } else {
            r
        }
    }
}

/// The mail addresses in a distinguished name.
pub open spec fn dn_emails(name: Seq<Rdn>) -> Seq<NameView>
    decreases name.len(),
{
    if name.len() == 0 {
        Seq::empty()
    } else {
        dn_emails(name.drop_last()) + rdn_emails(name.last())
    }
}

/// The constrained names of a certificate: its subject DN (when non-empty), any
/// legacy `emailAddress` attribute in the subject DN promoted to an `rfc822Name`
/// (RFC 5280 §4.2.1.10), and any SANs.
pub open spec fn names_of(cert: CertView) -> Seq<NameView> {
    (if cert.subject.rdns.len() > 0 { seq![NameView::Directory(cert.subject.rdns)] } else { Seq::empty() })
        + dn_emails(cert.subject.rdns) + (match cert.alt_names {
        Some(v) => v,
        None => Seq::empty(),
    })
}

proof fn lemma_char_range(c: char)
    ensures
        '\0' <= c,
{
}

fn all_ascii(s: &[char]) -> (r: bool)
    ensures
        r == is_ascii_chars(s@),
{
    let mut i: usize = 0;
    while i < s.len()
        invariant
            i <= s.len(),
            forall|k: int| 0 <= k < i ==> '\0' <= #[trigger] s@[k] <= '\u{7f}',
        decreases s.len() - i,
    {
        let c: char = s[i];
        proof {
            lemma_char_range(c);
        }
        if c > '\u{7f}' {
            assert(!('\0' <= s@[i as int] <= '\u{7f}'));
            return false;
        }
        assert('\0' <= s@[i as int] <= '\u{7f}');
        i += 1;
    }
    true
}

fn push_rdn_emails(out: &mut Vec<GeneralName>, rdn: &Vec<(Vec<u8>, Vec<u8>)>)
    ensures
        name_views(final(out)@) == name_views(old(out)@) + rdn_emails(pairs_of(rdn@)),
{
    let ghost start = name_views(out@);
    let mut i: usize = 0;
    assert(pairs_of(rdn@).take(0) =~= Seq::empty());
    while i < rdn.len()
        invariant
            i <= rdn.len(),
            name_views(out@) =~= start + rdn_emails(pairs_of(rdn@).take(i as int)),
        decreases rdn.len() - i,
    {
        proof {
            let t = pairs_of(rdn@).take(i + 1);
            assert(t.drop_last() =~= pairs_of(rdn@).take(i as int));
            assert(t.last() == (rdn@[i as int].0@, rdn@[i as int].1@));
        }
        if is_email_address(&rdn[i].0) {
            let text: String = from_utf8_lossy(&rdn[i].1);
            if all_ascii(&chars_of(text.as_str())) {
                let ghost before = name_views(out@);
                let ghost v = NameView::Email(text@);
                out.push(GeneralName::Email(text));
                assert(name_views(out@) =~= before.push(v));
            }
        }
        i += 1;
    }
    assert(pairs_of(rdn@).take(i as int) =~= pairs_of(rdn@));
}

fn push_dn_emails(out: &mut Vec<GeneralName>, name: &Vec<Vec<(Vec<u8>, Vec<u8>)>>)
    ensures
        name_views(final(out)@) == name_views(old(out)@) + dn_emails(rdns(name@)),
{
    let ghost start = name_views(out@);
    let mut i: usize = 0;
    assert(rdns(name@).take(0) =~= Seq::empty());
    while i < name.len()
        invariant
            i <= name.len(),
            name_views(out@) =~= start + dn_emails(rdns(name@).take(i as int)),
        decreases name.len() - i,
    {
        proof {
            let t = rdns(name@).take(i + 1);
            assert(t.drop_last() =~= rdns(name@).take(i as int));
            assert(t.last() == pairs_of(name@[i as int]@));
        }
        push_rdn_emails(out, &name[i]);
        i += 1;
    }
    assert(rdns(name@).take(i as int) =~= rdns(name@));
}

fn copy_rdns(v: &Vec<Vec<(Vec<u8>, Vec<u8>)>>) -> (r: Vec<Vec<(Vec<u8>, Vec<u8>)>>)
    ensures
        rdns(r@) == rdns(v@),
{
    let mut out: Vec<Vec<(Vec<u8>, Vec<u8>)>> = Vec::new();
    let mut i: usize = 0;
    while i < v.len()
        invariant
            i <= v.len(),
            out@.len() == i,
            forall|k: int| 0 <= k < i ==> pairs_of((#[trigger] out@[k])@) == pairs_of(v@[k]@),
        decreases v.len() - i,
    {
        let mut rdn: Vec<(Vec<u8>, Vec<u8>)> = Vec::new();
        let mut j: usize = 0;
        while j < v[i].len()
            invariant
                i < v.len(),
                j <= v@[i as int].len(),
                rdn@.len() == j,
                forall|k: int|
                    0 <= k < j ==> (#[trigger] rdn@[k]).0@ == v@[i as int]@[k].0@ && rdn@[k].1@ == v@[i as int]@[k].1@,
            decreases v@[i as int].len() - j,
        {
            rdn.push((to_vec(&v[i][j].0), to_vec(&v[i][j].1)));
            j += 1;
        }
        assert(pairs_of(rdn@) =~= pairs_of(v@[i as int]@));
        out.push(rdn);
        i += 1;
    }
    assert(rdns(out@) =~= rdns(v@));
    out
}

/// The verdict on a name under one CA's constraints.
pub open spec fn name_verdict(name: NameView, nc: ConstraintsView) -> Result<(), Seq<char>> {
    if excluded_by(name, nc) {
        Err("subject name excluded by a CA name constraint"@)
    } else if !permitted_by(name, nc) {
        Err("subject name outside a CA's permitted name constraints"@)
    } else {
        Ok(())
    }
}

/// The first verdict against a name under a list of constraints.
pub open spec fn name_checked(name: NameView, ncs: Seq<ConstraintsView>) -> Result<(), Seq<char>>
    decreases ncs.len(),
{
    if ncs.len() == 0 {
        Ok(())
    } else {
        match name_checked(name, ncs.drop_last()) {
            Err(t) => Err(t),
            Ok(_) => name_verdict(name, ncs.last()),
        }
    }
}

/// The first verdict against names under a list of constraints.
pub open spec fn names_checked(names: Seq<NameView>, ncs: Seq<ConstraintsView>) -> Result<(), Seq<char>>
    decreases names.len(),
{
    if names.len() == 0 {
        Ok(())
    } else {
        match names_checked(names.drop_last(), ncs) {
            Err(t) => Err(t),
            Ok(_) => name_checked(names.last(), ncs),
        }
    }
}

/// The constraints of the certificates of a path above index `i`, the root's first.
pub open spec fn constraints_above(path: Seq<CertView>, i: int) -> Seq<ConstraintsView>
    decreases path.len() - i,
{
    if i + 1 >= path.len() || i < -1 {
        Seq::empty()
    } else {
        let r = constraints_above(path, i + 1);
        match path[i + 1].name_constraints {
            Some(nc) => r.push(nc),
            None => r,
        }
    }
}

/// Each certificate of a path from the root (the anchor, itself unchecked) down to
/// index `i` satisfies the constraints of every CA above it. A self-issued
/// certificate that is not the leaf is exempt (RFC 5280 §6.1.3 (b)/(c)).
pub open spec fn path_names_checked(path: Seq<CertView>, i: int) -> Result<(), Seq<char>>
    decreases path.len() - i,
{
    if i < 0 || i + 1 >= path.len() {
        Ok(())
    } else {
        match path_names_checked(path, i + 1) {
            Err(t) => Err(t),
            Ok(_) => if i != 0 && path[i].policy.self_issued {
                Ok(())
            } else {
                names_checked(names_of(path[i]), constraints_above(path, i))
            },
        }
    }
}

/// The views of a path.
pub open spec fn path_views(v: Seq<&Certificate>) -> Seq<CertView> {
    Seq::new(v.len(), |i: int| v[i]@)
}

/// The views of constraints.
pub open spec fn constraint_views(v: Seq<&NameConstraints>) -> Seq<ConstraintsView> {
    Seq::new(v.len(), |i: int| v[i]@)
}

fn check_name(name: &GeneralName, ncs: &Vec<&NameConstraints>) -> (r: Result<(), &'static str>)
    ensures
        match name_checked(name@, constraint_views(ncs@)) {
            Ok(_) => r is Ok,
            Err(t) => r is Err && r->Err_0@ == t,
        },
{
    let ghost v = constraint_views(ncs@);
    let mut i: usize = 0;
    assert(v.take(0) =~= Seq::empty());
    while i < ncs.len()
        invariant
            i <= ncs.len(),
            v == constraint_views(ncs@),
            name_checked(name@, v.take(i as int)) is Ok,
        decreases ncs.len() - i,
    {
        proof {
            let t = v.take(i + 1);
            assert(t.drop_last() =~= v.take(i as int));
            assert(t.last() == ncs@[i as int]@);
        }
        if name_excluded(name, ncs[i]) {
            proof {
                lemma_name_err(name@, v, i + 1);
            }
            return Err("subject name excluded by a CA name constraint");
        }
        if !name_permitted(name, ncs[i]) {
            proof {
                lemma_name_err(name@, v, i + 1);
            }
            return Err("subject name outside a CA's permitted name constraints");
        }
        i += 1;
    }
    assert(v.take(i as int) =~= v);
    Ok(())
}

proof fn lemma_name_err(name: NameView, v: Seq<ConstraintsView>, i: int)
    requires
        0 <= i <= v.len(),
        name_checked(name, v.take(i)) is Err,
    ensures
        name_checked(name, v) is Err,
        name_checked(name, v)->Err_0 == name_checked(name, v.take(i))->Err_0,
    decreases v.len() - i,
{
    if i < v.len() {
        assert(v.take(i + 1).drop_last() =~= v.take(i));
        lemma_name_err(name, v, i + 1);
    } else {
        assert(v.take(i) =~= v);
    }
}

fn check_names(names: &Vec<GeneralName>, ncs: &Vec<&NameConstraints>) -> (r: Result<(), &'static str>)
    ensures
        match names_checked(name_views(names@), constraint_views(ncs@)) {
            Ok(_) => r is Ok,
            Err(t) => r is Err && r->Err_0@ == t,
        },
{
    let ghost v = name_views(names@);
    let mut i: usize = 0;
    assert(v.take(0) =~= Seq::empty());
    while i < names.len()
        invariant
            i <= names.len(),
            v == name_views(names@),
            names_checked(v.take(i as int), constraint_views(ncs@)) is Ok,
        decreases names.len() - i,
    {
        proof {
            let t = v.take(i + 1);
            assert(t.drop_last() =~= v.take(i as int));
            assert(t.last() == names@[i as int]@);
        }
        match check_name(&names[i], ncs) {
            Err(t) => {
                proof {
                    lemma_names_err(v, constraint_views(ncs@), i + 1);
                }
                return Err(t);
            },
            Ok(()) => {},
        }
        i += 1;
    }
    assert(v.take(i as int) =~= v);
    Ok(())
}

proof fn lemma_names_err(names: Seq<NameView>, v: Seq<ConstraintsView>, i: int)
    requires
        0 <= i <= names.len(),
        names_checked(names.take(i), v) is Err,
    ensures
        names_checked(names, v) is Err,
        names_checked(names, v)->Err_0 == names_checked(names.take(i), v)->Err_0,
    decreases names.len() - i,
{
    if i < names.len() {
        assert(names.take(i + 1).drop_last() =~= names.take(i));
        lemma_names_err(names, v, i + 1);
    } else {
        assert(names.take(i) =~= names);
    }
}

fn append_names(out: &mut Vec<GeneralName>, names: &Vec<GeneralName>)
    ensures
        name_views(final(out)@) == name_views(old(out)@) + name_views(names@),
{
    let ghost start = name_views(out@);
    let mut i: usize = 0;
    while i < names.len()
        invariant
            i <= names.len(),
            name_views(out@) =~= start + name_views(names@).take(i as int),
        decreases names.len() - i,
    {
        let n: GeneralName = match &names[i] {
            GeneralName::Directory(d) => GeneralName::Directory(copy_rdns(d)),
            GeneralName::Dns(s) => GeneralName::Dns(s.clone()),
            GeneralName::Email(s) => GeneralName::Email(s.clone()),
            GeneralName::Ip(b) => GeneralName::Ip(to_vec(b)),
            GeneralName::Uri(s) => GeneralName::Uri(s.clone()),
            GeneralName::Other => GeneralName::Other,
        };
        assert(n@ == names@[i as int]@);
        let ghost before = name_views(out@);
        out.push(n);
        assert(name_views(out@) =~= before.push(names@[i as int]@));
        i += 1;
    }
    assert(name_views(names@).take(i as int) =~= name_views(names@));
}

/// The constrained names of a certificate: its subject DN (when non-empty), any
/// legacy `emailAddress` attribute in the subject DN promoted to an `rfc822Name`
/// (RFC 5280 §4.2.1.10), and any SANs.
pub fn cert_names(cert: &Certificate) -> (r: Vec<GeneralName>)
    ensures
        name_views(r@) == names_of(cert@),
{
    let mut names: Vec<GeneralName> = Vec::new();
    if cert.subject.rdns.len() > 0 {
        names.push(GeneralName::Directory(copy_rdns(&cert.subject.rdns)));
    }
    assert(name_views(names@) =~= if cert@.subject.rdns.len() > 0 {
        seq![NameView::Directory(cert@.subject.rdns)]
    } else {
        Seq::empty()
    });
    push_dn_emails(&mut names, &cert.subject.rdns);
    match &cert.alt_names {
        Some(v) => append_names(&mut names, v),
        None => {
            assert(name_views(names@) + Seq::<NameView>::empty() =~= name_views(names@));
        },
    }
    names
}

/// Apply name constraints down the path: each certificate must satisfy the
/// constraints imposed by every CA above it. `path` is `[leaf, ..., root]`.
pub fn check_name_constraints(path: &Vec<&Certificate>) -> (r: Result<(), &'static str>)
    ensures
        match path_names_checked(path_views(path@), 0) {
            Ok(_) => r is Ok,
            Err(t) => r is Err && r->Err_0@ == t,
        },
{
    let ghost v = path_views(path@);
    let mut collected: Vec<&NameConstraints> = Vec::new();
    let mut i: usize = path.len();
    proof {
        assert(constraint_views(collected@) =~= Seq::empty());
    }
    while i > 0
        invariant
            i <= path.len(),
            v == path_views(path@),
            constraint_views(collected@) == constraints_above(v, i - 1),
            path_names_checked(v, i as int) is Ok,
        decreases i,
    {
        let k: usize = i - 1;
        let cert: &Certificate = path[k];
        assert(v[k as int] == cert@);
        if k + 1 < path.len() && !(k != 0 && cert.policy.self_issued) {
            match check_names(&cert_names(cert), &collected) {
                Err(t) => {
                    proof {
                        lemma_path_err(v, k as int);
                    }
                    return Err(t);
                },
                Ok(()) => {},
            }
        }
        match &cert.name_constraints {
            Some(nc) => {
                let ghost before = constraint_views(collected@);
                collected.push(nc);
                assert(constraint_views(collected@) =~= before.push(nc@));
            },
            None => {},
        }
        i = k;
    }
    Ok(())
}

proof fn lemma_path_err(path: Seq<CertView>, i: int)
    requires
        0 <= i < path.len(),
        path_names_checked(path, i) is Err,
    ensures
        path_names_checked(path, 0) is Err,
        path_names_checked(path, 0)->Err_0 == path_names_checked(path, i)->Err_0,
    decreases i,
{
    if i > 0 {
        lemma_path_err(path, i - 1);
    }
}

// ---------------------------------------------------------------------------
// Path-wide checks

/// `at` lies in the validity window of the certificate.
pub open spec fn is_valid_at(cert: CertView, at: i64) -> bool {
    cert.subject.not_before <= at <= cert.subject.not_after
}

/// `at` lies in the validity window of the certificate.
pub fn valid_at(cert: &Certificate, at: i64) -> (r: bool)
    ensures
        r == is_valid_at(cert@, at),
{
    at >= 0 && at as u64 >= cert.subject.not_before && at as u64 <= cert.subject.not_after
}

/// The policies of a path without its anchor, the one that the anchor issued first.
pub open spec fn path_policies(path: Seq<CertView>) -> Seq<PolicyView> {
    Seq::new((path.len() - 1) as nat, |i: int| path[path.len() - 2 - i].policy)
}

/// The verdict on a path `[leaf, intermediate..., root]` that reached a trusted
/// root: name constraints first, policies second.
pub open spec fn finalized(path: Seq<CertView>, required: Option<Seq<u8>>) -> ChainView {
    match path_names_checked(path, 0) {
        Err(t) => failure(t),
        Ok(_) => match policies_accepted(
            path_policies(path),
            seq![
                match required {
                    Some(p) => p,
                    None => any_policy(),
                },
            ],
            required is Some,
        ) {
            Err(t) => failure(t),
            Ok(_) => if path.len() == 1 {
                success("certificate is a trusted root"@)
            } else {
                success("chains to trusted root ("@ + path.last().subject.text + ")"@)
            },
        },
    }
}

/// Run the path-wide checks (name constraints, required policy) once a trusted
/// root has been reached. `path` is `[leaf, intermediate..., root]`.
fn finalize(path: &Vec<&Certificate>, store: &TrustStore) -> (r: ChainResult)
    requires
        path.len() > 0,
    ensures
        r@ == finalized(path_views(path@), store@.required_policy),
{
    match check_name_constraints(path) {
        Err(t) => {
            return fail(t);
        },
        Ok(()) => {},
    }
    let mut certs: Vec<&PolicyExtensions> = Vec::new();
    let n: usize = path.len() - 1;
    let mut i: usize = 0;
    while i < n
        invariant
            n + 1 == path.len(),
            i <= n,
            certs@.len() == i,
            forall|k: int| 0 <= k < i ==> (#[trigger] certs@[k])@ == path_policies(path_views(path@))[k],
        decreases n - i,
    {
        let c: &Certificate = path[n - 1 - i];
        certs.push(&c.policy);
        assert(path_views(path@)[n - 1 - i].policy == c.policy@);
        i += 1;
    }
    assert(policy_views(certs@) =~= path_policies(path_views(path@)));
    let required: Vec<u8> = match &store.required_policy {
        Some(p) => to_vec(p),
        None => any_policy_oid(),
    };
    let initial_policy_set: Vec<Vec<u8>> = vec![required];
    let input: PolicyInput = PolicyInput {
        initial_policy_set,
        initial_explicit_policy: store.required_policy.is_some(),
    };
    assert(blobs(input.initial_policy_set@) =~= seq![
        match store@.required_policy {
            Some(p) => p,
            None => any_policy(),
        },
    ]);
    match process_policies(&certs, &input) {
        Err(t) => {
            return fail(t);
        },
        Ok(()) => {},
    }
    if path.len() == 1 {
        ok("certificate is a trusted root")
    } else {
        let anchor: &Certificate = path[path.len() - 1];
        assert(path_views(path@).last() == anchor@);
        let mut t: String = "chains to trusted root (".to_owned();
        t.append(anchor.subject.text.as_str());
        t.append(")");
        ChainResult { trusted: true, detail: t }
    }
}

// ---------------------------------------------------------------------------
// Path construction

/// What a path is built from and judged by.
pub struct Context {
    pub store: StoreView,
    pub pool: Seq<CertView>,
    pub crls: Seq<CrlView>,
    pub ocsps: Seq<OcspView>,
    pub at: i64,
}

/// The certificate is one of the list, by its DER.
pub open spec fn is_among(cert: CertView, list: Seq<CertView>) -> bool {
    exists|i: int| 0 <= i < list.len() && (#[trigger] list[i]).core.der == cert.core.der
}

/// `issuer` issued `cert`, and has not revoked it.
pub open spec fn link_holds(cert: CertView, issuer: CertView, cx: Context) -> bool {
    issued(cert, issuer) && !is_revoked(cert, issuer, cx.crls, cx.ocsps, cx.at)
}

/// A root can stand above the last certificate of a path.
pub open spec fn root_fits(path: Seq<CertView>, root: CertView, cx: Context) -> bool {
    is_valid_at(root, cx.at) && link_holds(path.last(), root, cx)
}

/// A certificate is a CA whose path length constraint permits `below`
/// intermediates below it, and whose key may sign certificates.
pub open spec fn may_issue(cert: CertView, below: int) -> bool {
    (cert.basic_constraints matches Some((ca, limit)) && ca && (limit matches Some(n) ==> below <= n))
        && cert.key_cert_sign != Some(false)
}

/// A certificate of the pool can stand above the last certificate of a path that
/// already has `below` intermediates.
pub open spec fn intermediate_fits(path: Seq<CertView>, next: CertView, cx: Context, below: int) -> bool {
    !is_among(next, path) && may_issue(next, below) && link_holds(path.last(), next, cx)
}

/// The first trusted completion of a path by a root from index `k` on, or the
/// first rejection of one.
pub open spec fn try_roots(path: Seq<CertView>, cx: Context, k: int, pending: Option<ChainView>) -> Option<ChainView>
    decreases cx.store.roots.len() - k,
{
    if k < 0 || k >= cx.store.roots.len() {
        pending
    } else {
        let root = cx.store.roots[k];
        if !root_fits(path, root, cx) {
            try_roots(path, cx, k + 1, pending)
        } else {
            let result = finalized(path.push(root), cx.store.required_policy);
            if result.trusted {
                Some(result)
            } else {
                try_roots(path, cx, k + 1, first_of(pending, result))
            }
        }
    }
}

/// The rejection that was seen first.
pub open spec fn first_of(pending: Option<ChainView>, result: ChainView) -> Option<ChainView> {
    match pending {
        Some(p) => Some(p),
        None => Some(result),
    }
}

/// The verdict on a path whose last certificate has `below` intermediates under
/// it: the first trusted completion in depth-first order, roots before the pool;
/// otherwise the first rejection.
pub open spec fn extended(path: Seq<CertView>, cx: Context, below: int) -> ChainView
    decreases MAX_DEPTH - below, 1int, 0int,
{
    let current = path.last();
    if !is_valid_at(current, cx.at) {
        failure("a certificate in the path is expired or not yet valid"@)
    } else if is_among(current, cx.store.roots) {
        finalized(path, cx.store.required_policy)
    } else {
        match try_roots(path, cx, 0, None) {
            Some(r) => if r.trusted || below >= MAX_DEPTH {
                r
            } else {
                try_pool(path, cx, below, 0, Some(r))
            },
            None => if below >= MAX_DEPTH {
                failure("certificate path too long"@)
            } else {
                try_pool(path, cx, below, 0, None)
            },
        }
    }
}

/// The first trusted completion of a path by certificates of the pool from index
/// `k` on; otherwise the first rejection.
pub open spec fn try_pool(
    path: Seq<CertView>,
    cx: Context,
    below: int,
    k: int,
    pending: Option<ChainView>,
) -> ChainView
    decreases MAX_DEPTH - below, 0int, cx.pool.len() - k,
{
    if k < 0 || k >= cx.pool.len() || below >= MAX_DEPTH {
        match pending {
            Some(p) => p,
            None => failure("could not build a path to a trusted root"@),
        }
    } else {
        let next = cx.pool[k];
        if !intermediate_fits(path, next, cx, below) {
            try_pool(path, cx, below, k + 1, pending)
        } else {
            let result = extended(path.push(next), cx, below + 1);
            if result.trusted {
                result
            } else {
                try_pool(path, cx, below, k + 1, first_of(pending, result))
            }
        }
    }
}

/// The context that the arguments of a path construction give.
pub open spec fn context(store: &TrustStore, pool: Seq<Certificate>, crls: Seq<Crl>, ocsps: Seq<Ocsp>, at: i64) -> Context {
    Context {
        store: store@,
        pool: cert_views(pool),
        crls: crl_views(crls),
        ocsps: ocsp_views(ocsps),
        at,
    }
}

fn among(cert: &Certificate, list: &Vec<Certificate>) -> (r: bool)
    ensures
        r == is_among(cert@, cert_views(list@)),
{
    let mut i: usize = 0;
    while i < list.len()
        invariant
            i <= list.len(),
            forall|k: int| 0 <= k < i ==> (#[trigger] cert_views(list@)[k]).core.der != cert@.core.der,
        decreases list.len() - i,
    {
        if bytes_eq(&list[i].core.der, &cert.core.der) {
            assert(cert_views(list@)[i as int].core.der == cert@.core.der);
            return true;
        }
        i += 1;
    }
    false
}

fn on_path(cert: &Certificate, path: &Vec<&Certificate>) -> (r: bool)
    ensures
        r == is_among(cert@, path_views(path@)),
{
    let mut i: usize = 0;
    while i < path.len()
        invariant
            i <= path.len(),
            forall|k: int| 0 <= k < i ==> (#[trigger] path_views(path@)[k]).core.der != cert@.core.der,
        decreases path.len() - i,
    {
        if bytes_eq(&path[i].core.der, &cert.core.der) {
            assert(path_views(path@)[i as int].core.der == cert@.core.der);
            return true;
        }
        i += 1;
    }
    false
}

fn permits(cert: &Certificate, below: usize) -> (r: bool)
    ensures
        r == may_issue(cert@, below as int),
{
    let ca: bool = match cert.basic_constraints {
        Some((ca, limit)) => ca && match limit {
            Some(n) => below <= n as usize,
            None => true,
        },
        None => false,
    };
    ca && match cert.key_cert_sign {
        Some(b) => b,
        None => true,
    }
}

/// Depth-first certificate-path construction with backtracking. `path` ends at
/// the certificate we are trying to chain upward to a trusted root. Returns the
/// first fully validated [`ChainResult`], else a failure. Each candidate issuer
/// is evaluated independently: a rejected candidate is skipped, not fatal, so a
/// later valid issuer still gets its turn.
fn extend_path<'a>(
    path: &mut Vec<&'a Certificate>,
    store: &'a TrustStore,
    pool: &'a Vec<Certificate>,
    crls: &Vec<Crl>,
    ocsps: &Vec<Ocsp>,
    at: i64,
    below: usize,
) -> (r: ChainResult)
    requires
        old(path).len() > 0,
        below <= MAX_DEPTH,
    ensures
        r@ == extended(path_views(old(path)@), context(store, pool@, crls@, ocsps@, at), below as int),
        path_views(final(path)@) == path_views(old(path)@),
    decreases MAX_DEPTH - below,
{
    let ghost cx = context(store, pool@, crls@, ocsps@, at);
    let ghost p = path_views(path@);
    let current: &Certificate = path[path.len() - 1];
    assert(p.last() == current@);
    if !valid_at(current, at) {
        return fail("a certificate in the path is expired or not yet valid");
    }
    if among(current, &store.roots) {
        return finalize(path, store);
    }
    let mut pending: Option<ChainResult> = None;
    let mut k: usize = 0;
    while k < store.roots.len()
        invariant
            k <= store.roots.len(),
            cx == context(store, pool@, crls@, ocsps@, at),
            p == path_views(path@),
            p == path_views(old(path)@),
            path.len() > 0,
            p.last() == current@,
            pending matches Some(x) ==> !x@.trusted,
            try_roots(p, cx, 0, None) == try_roots(
                p,
                cx,
                k as int,
                match pending {
                    Some(x) => Some(x@),
                    None => None,
                },
            ),
            is_valid_at(current@, at),
            !is_among(current@, cx.store.roots),
            below <= MAX_DEPTH,
            extended(p, cx, below as int) == (match try_roots(p, cx, 0, None) {
                Some(r) => if r.trusted || below >= MAX_DEPTH {
                    r
                } else {
                    try_pool(p, cx, below as int, 0, Some(r))
                },
                None => if below >= MAX_DEPTH {
                    failure("certificate path too long"@)
                } else {
                    try_pool(p, cx, below as int, 0, None)
                },
            }),
        decreases store.roots.len() - k,
    {
        let root: &Certificate = &store.roots[k];
        assert(cx.store.roots[k as int] == root@);
        if issued_by(current, root) && valid_at(root, at) && !revoked(current, root, crls, ocsps, at) {
            path.push(root);
            assert(path_views(path@) =~= p.push(root@));
            let result: ChainResult = finalize(path, store);
            path.pop();
            assert(path_views(path@) =~= p);
            if result.trusted {
                return result;
            }
            if pending.is_none() {
                pending = Some(result);
            }
        }
        k += 1;
    }
    if below >= MAX_DEPTH {
        return match pending {
            Some(r) => r,
            None => fail("certificate path too long"),
        };
    }
    let mut k: usize = 0;
    while k < pool.len()
        invariant
            k <= pool.len(),
            cx == context(store, pool@, crls@, ocsps@, at),
            p == path_views(path@),
            p == path_views(old(path)@),
            path.len() > 0,
            p.last() == current@,
            below < MAX_DEPTH,
            pending matches Some(x) ==> !x@.trusted,
            extended(p, cx, below as int) == try_pool(
                p,
                cx,
                below as int,
                k as int,
                match pending {
                    Some(x) => Some(x@),
                    None => None,
                },
            ),
        decreases pool.len() - k,
    {
        let next: &Certificate = &pool[k];
        assert(cx.pool[k as int] == next@);
        if !on_path(next, path) && permits(next, below) && issued_by(current, next) && !revoked(
            current,
            next,
            crls,
            ocsps,
            at,
        ) {
            path.push(next);
            assert(path_views(path@) =~= p.push(next@));
            let result: ChainResult = extend_path(path, store, pool, crls, ocsps, at, below + 1);
            let ghost q = path_views(path@);
            path.pop();
            assert(path_views(path@) =~= q.drop_last());
            assert(path_views(path@) =~= p);
            if result.trusted {
                return result;
            }
            if pending.is_none() {
                pending = Some(result);
            }
        }
        k += 1;
    }
    match pending {
        Some(r) => r,
        None => fail("could not build a path to a trusted root"),
    }
}

/// The verdict on the chain of a leaf certificate.
pub open spec fn chain_verdict(leaf: CertView, cx: Context) -> ChainView {
    extended(seq![leaf], cx, 0)
}

/// Validate that `leaf` chains to a trusted root, using `pool` (e.g. the certs
/// embedded in the CMS) as candidate intermediates, at time `at` (seconds since
/// the Unix epoch). `crls` and `ocsps` are the revocation evidence available (e.g.
/// from the document's DSS).
///
/// Enforces, per RFC 5280 (practical subset): each link's signature, validity
/// windows, issuer `basicConstraints` CA flag, `pathLenConstraint`,
/// `keyCertSign` key usage, CRL + OCSP revocation, **name constraints**, and an
/// optional **required policy** OID.
pub fn verify_chain(
    leaf: &Certificate,
    pool: &Vec<Certificate>,
    store: &TrustStore,
    crls: &Vec<Crl>,
    ocsps: &Vec<Ocsp>,
    at: i64,
) -> (r: ChainResult)
    ensures
        r@ == chain_verdict(leaf@, context(store, pool@, crls@, ocsps@, at)),
{
    let mut path: Vec<&Certificate> = Vec::new();
    path.push(leaf);
    assert(path_views(path@) =~= seq![leaf@]);
    extend_path(&mut path, store, pool, crls, ocsps, at, 0)
}

} // verus!
