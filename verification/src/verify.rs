//! Verification path: re-derive the signed byte range and validate the CMS.
use vstd::prelude::*;

use crate::certificate::{certificate_of, certificates_of, parse_certificates, Certificate};
use crate::clock::unix_now;
use crate::dss::{extract_dss_crls, extract_dss_ocsps, extracted};
use crate::error::{bytes_result, error_text, malformed, Error, ErrorView};
use crate::locate::{collect_signatures, sig_views, signatures_of, SigLoc, SigView};
use crate::revocation::{
    crl_views, crls_of, ocsp_views, ocsps_of, parse_crls, parse_ocsps, Crl, CrlView, Ocsp, OcspView,
};
use crate::signed_data::{
    cms_of, cms_verify, detached_verdict, signer_and_pool, signer_certificate_and_pool, Cms,
};
use crate::timestamp::{doc_timestamp_verdict, embedded_timestamp, verify_doc_timestamp, verify_embedded_timestamp};
use crate::trust::{chain_verdict, verify_chain, ChainResult, Context, StoreView, TrustStore};
use crate::util::{blobs, bytes_eq, der_len, der_total_len, hex_decode, lit, to_vec, unhex};

verus! {

// ---------------------------------------------------------------------------
// Certificate chains

/// A certificate path in DER is trusted: it chains to a root of the store.
pub open spec fn ders_trusted(
    leaf: Seq<u8>,
    pool: Seq<Seq<u8>>,
    crls: Seq<Seq<u8>>,
    store: StoreView,
    at: i64,
) -> bool {
    match certificate_of(leaf) {
        Err(_) => false,
        Ok(c) => chain_verdict(
            c,
            (Context { store, pool: certificates_of(pool), crls: crls_of(crls), ocsps: Seq::empty(), at }),
        ).trusted,
    }
}

/// Validate a certificate path directly (decoupled from PDF signing): does
/// `leaf_der` chain to a trusted root in `roots`, using `pool_ders` as candidate
/// intermediates and `crl_ders` for revocation, at time `at` (seconds since the
/// Unix epoch)? Exposed mainly for conformance testing (e.g. NIST PKITS).
pub fn verify_certificate_chain(
    leaf_der: &[u8],
    pool_ders: &Vec<Vec<u8>>,
    crl_ders: &Vec<Vec<u8>>,
    roots: &TrustStore,
    at: i64,
) -> (r: bool)
    ensures
        r == ders_trusted(leaf_der@, blobs(pool_ders@), blobs(crl_ders@), roots@, at),
{
    match Certificate::from_der(leaf_der) {
        Err(_) => false,
        Ok(leaf) => {
            let pool: Vec<Certificate> = parse_certificates(pool_ders);
            let crls: Vec<Crl> = parse_crls(crl_ders);
            let ocsps: Vec<Ocsp> = Vec::new();
            assert(ocsp_views(ocsps@) =~= Seq::empty());
            verify_chain(&leaf, &pool, roots, &crls, &ocsps, at).trusted
        },
    }
}

// ---------------------------------------------------------------------------
// Reports

/// Outcome of verifying a single signature.
#[derive(Debug)]
pub struct VerifiedSignature {
    /// Whether the CMS signature is cryptographically valid over the byte range.
    pub valid: bool,
    /// The four `/ByteRange` integers `[start1, len1, start2, len2]`.
    pub byte_range: [i64; 4],
    /// Number of bytes covered by the signature.
    pub signed_len: usize,
    /// Whether the byte range covers the whole file except the signature hole.
    pub covers_whole_document: bool,
    /// Signer certificate subject DN, when the signature could be parsed.
    pub signer: Option<String>,
    /// Whether the signer certificate chains to a trusted root. `None` when no
    /// trust store was supplied or the entry is a document timestamp.
    pub chain_trusted: Option<bool>,
    /// Human-readable detail (error message when invalid).
    pub detail: String,
}

/// The outcome of verifying a single signature as a mathematical value.
pub struct VerifiedView {
    pub valid: bool,
    pub byte_range: Seq<i64>,
    pub signed_len: int,
    pub covers_whole_document: bool,
    pub signer: Option<Seq<char>>,
    pub chain_trusted: Option<bool>,
    pub detail: Seq<char>,
}

impl VerifiedSignature {
    pub open spec fn view(&self) -> VerifiedView {
        VerifiedView {
            valid: self.valid,
            byte_range: self.byte_range@,
            signed_len: self.signed_len as int,
            covers_whole_document: self.covers_whole_document,
            signer: match self.signer {
                Some(s) => Some(s@),
                None => None,
            },
            chain_trusted: self.chain_trusted,
            detail: self.detail@,
        }
    }
}

/// Report over all signatures found.
#[derive(Debug)]
pub struct SignatureReport {
    pub signatures: Vec<VerifiedSignature>,
}

/// The views of a list of outcomes.
pub open spec fn verified_views(v: Seq<VerifiedSignature>) -> Seq<VerifiedView> {
    Seq::new(v.len(), |i: int| v[i]@)
}

/// At least one signature was found, and all found are cryptographically valid.
pub open spec fn report_valid(s: Seq<VerifiedView>) -> bool {
    s.len() > 0 && forall|i: int| 0 <= i < s.len() ==> (#[trigger] s[i]).valid
}

/// Every signature is valid, and none chains to an untrusted root.
pub open spec fn report_trusted(s: Seq<VerifiedView>) -> bool {
    report_valid(s) && forall|i: int| 0 <= i < s.len() ==> (#[trigger] s[i]).chain_trusted != Some(false)
}

impl SignatureReport {
    pub open spec fn view(&self) -> Seq<VerifiedView> {
        verified_views(self.signatures@)
    }

    /// True if at least one signature was found and all found are
    /// cryptographically valid. This says **nothing** about trust — a
    /// self-signed or untrusted signature can still be `all_valid`. When a
    /// trust store was supplied, use [`all_trusted`](Self::all_trusted).
    pub fn all_valid(&self) -> (r: bool)
        ensures
            r == report_valid(self@),
    {
        let mut i: usize = 0;
        while i < self.signatures.len()
            invariant
                i <= self.signatures.len(),
                forall|k: int| 0 <= k < i ==> (#[trigger] self@[k]).valid,
            decreases self.signatures.len() - i,
        {
            assert(self@[i as int] == self.signatures@[i as int]@);
            if !self.signatures[i].valid {
                return false;
            }
            i += 1;
        }
        self.signatures.len() > 0
    }

    /// True if every signature is valid ([`all_valid`](Self::all_valid)) **and**
    /// none chains to an untrusted root. Use this when a trust store was
    /// supplied; entries with no trust result (`chain_trusted == None`, e.g.
    /// document timestamps) are not treated as failures.
    pub fn all_trusted(&self) -> (r: bool)
        ensures
            r == report_trusted(self@),
    {
        if !self.all_valid() {
            return false;
        }
        let mut i: usize = 0;
        while i < self.signatures.len()
            invariant
                i <= self.signatures.len(),
                report_valid(self@),
                forall|k: int| 0 <= k < i ==> (#[trigger] self@[k]).chain_trusted != Some(false),
            decreases self.signatures.len() - i,
        {
            assert(self@[i as int] == self.signatures@[i as int]@);
            if let Some(b) = self.signatures[i].chain_trusted {
                if !b {
                    return false;
                }
            }
            i += 1;
        }
        true
    }
}

/// A trusted report is a valid one, and a report without signatures is neither.
pub proof fn law_trusted_is_valid(s: Seq<VerifiedView>)
    ensures
        report_trusted(s) ==> report_valid(s),
        s.len() == 0 ==> !report_valid(s) && !report_trusted(s),
{
}

// ---------------------------------------------------------------------------
// One signature

/// The CMS at the start of the raw `/Contents` bytes, without the padding.
pub open spec fn cms_in_contents(contents: Seq<u8>) -> Result<Seq<u8>, ErrorView> {
    if contents.len() == 0 || contents[0] != 0x30 {
        Err(ErrorView::Malformed("CMS does not start with SEQUENCE"@))
    } else {
        match der_len(contents) {
            None => Err(ErrorView::Malformed("cannot read CMS DER length"@)),
            Some(n) => if n > contents.len() {
                Err(ErrorView::Malformed("CMS DER length exceeds placeholder"@))
            } else {
                Ok(contents.take(n))
            },
        }
    }
}

/// Slice the real CMS out of the raw `/Contents` bytes, dropping the zero
/// padding using the ASN.1 length header.
pub fn cms_from_contents(contents: &[u8]) -> (r: Result<Vec<u8>, Error>)
    ensures
        bytes_result(r) == cms_in_contents(contents@),
{
    if contents.len() == 0 || contents[0] != 0x30 {
        return Err(malformed("CMS does not start with SEQUENCE"));
    }
    match der_total_len(contents) {
        None => Err(malformed("cannot read CMS DER length")),
        Some(n) => {
            if n > contents.len() {
                return Err(malformed("CMS DER length exceeds placeholder"));
            }
            let v: Vec<u8> = to_vec(&contents[0..n]);
            assert(v@ =~= contents@.take(n as int));
            Ok(v)
        },
    }
}

/// The bytes of a file from `a` up to `b` are the hexadecimal string `<...>` of
/// `contents`.
pub open spec fn is_contents_gap(pdf: Seq<u8>, a: int, b: int, contents: Seq<u8>) -> bool {
    0 <= a < b <= pdf.len() && pdf[a] == 0x3c && pdf[b - 1] == 0x3e && a + 1 <= b - 1 && unhex(
        pdf.subrange(a + 1, b - 1),
    ) == Some(contents)
}

/// True if the ByteRange gap `[gap_start, gap_end)` is exactly the `/Contents`
/// hex string `<...>` whose decoded value is `contents` — i.e. the signature
/// excludes nothing but its own Contents.
pub fn gap_is_contents(pdf: &[u8], gap_start: usize, gap_end: usize, contents: &[u8]) -> (r: bool)
    ensures
        r == is_contents_gap(pdf@, gap_start as int, gap_end as int, contents@),
{
    let total: usize = pdf.len();
    if gap_start >= gap_end || gap_end > total {
        return false;
    }
    let gt: usize = gap_end - 1;
    if pdf[gap_start] != 0x3c || pdf[gt] != 0x3e || gap_start >= gt {
        return false;
    }
    match hex_decode(&pdf[gap_start + 1..gt]) {
        Some(v) => bytes_eq(&v, contents),
        None => false,
    }
}

/// The byte range has no negative number and lies in a file of `len` bytes.
pub open spec fn range_checked(r: Seq<i64>, len: int) -> Result<(), ErrorView> {
    if r[0] < 0 || r[1] < 0 || r[2] < 0 || r[3] < 0 {
        Err(ErrorView::Malformed("negative ByteRange value"@))
    } else if r[0] + r[1] > len || r[2] + r[3] > len {
        Err(ErrorView::Malformed("ByteRange out of bounds"@))
    } else {
        Ok(())
    }
}

/// The bytes that a byte range covers.
pub open spec fn signed_part(pdf: Seq<u8>, r: Seq<i64>) -> Seq<u8> {
    pdf.subrange(r[0] as int, r[0] + r[1]) + pdf.subrange(r[2] as int, r[2] + r[3])
}

/// "Covers the whole document" requires spanning byte 0 to EOF *and* that the
/// only excluded bytes are exactly the `/Contents <...>` hex string.
pub open spec fn covers_document(pdf: Seq<u8>, r: Seq<i64>, contents: Seq<u8>) -> bool {
    r[0] == 0 && r[2] + r[3] == pdf.len() && is_contents_gap(pdf, r[0] + r[1], r[2] as int, contents)
}

/// Validity, signer and detail of a signature over the signed bytes.
pub open spec fn crypto_verdict(der: Seq<u8>, data: Seq<u8>, is_timestamp: bool) -> (
    bool,
    Option<Seq<char>>,
    Seq<char>,
) {
    if is_timestamp {
        match doc_timestamp_verdict(der, data) {
            Ok(_) => (true, None, "valid document timestamp (RFC 3161)"@),
            Err(e) => (false, None, error_text(e)),
        }
    } else {
        match detached_verdict(der, data) {
            Ok(s) => (true, Some(s), "valid CMS signature; signer: "@ + s),
            Err(e) => (false, None, error_text(e)),
        }
    }
}

/// The instant for validating the signer chain: the time of the signature's
/// embedded timestamp, but only when that token verifies *and* the authority's own
/// certificate chains, now, to a trusted root; otherwise now.
pub open spec fn reference_time(
    der: Seq<u8>,
    store: StoreView,
    crls: Seq<CrlView>,
    ocsps: Seq<OcspView>,
    now: i64,
) -> int {
    match embedded_timestamp(der) {
        Err(_) => now as int,
        Ok((t, token)) => match signer_and_pool(token) {
            Err(_) => now as int,
            Ok((leaf, pool)) => if t <= i64::MAX && chain_verdict(
                leaf,
                (Context { store, pool, crls, ocsps, at: now }),
            ).trusted {
                t as int
            } else {
                now as int
            },
        },
    }
}

/// Whether the signer's chain is trusted, and what to add to the detail.
pub open spec fn trust_verdict(
    der: Seq<u8>,
    store: StoreView,
    crls: Seq<CrlView>,
    ocsps: Seq<OcspView>,
    now: i64,
) -> (bool, Seq<char>) {
    match cms_of(der) {
        Err(_) => (false, Seq::empty()),
        Ok(c) => match signer_and_pool(c) {
            Err(_) => (false, Seq::empty()),
            Ok((leaf, pool)) => {
                let v = chain_verdict(
                    leaf,
                    (Context { store, pool, crls, ocsps, at: reference_time(der, store, crls, ocsps, now) as i64 }),
                );
                (v.trusted, "; chain: "@ + v.detail)
            },
        },
    }
}

/// The outcome of verifying one located signature.
pub open spec fn verified(
    pdf: Seq<u8>,
    sig: SigView,
    store: StoreView,
    now: i64,
) -> Result<VerifiedView, ErrorView> {
    match range_checked(sig.byte_range, pdf.len() as int) {
        Err(e) => Err(e),
        Ok(_) => match cms_in_contents(sig.contents) {
            Err(e) => Err(e),
            Ok(der) => {
                let (valid, signer, detail) = crypto_verdict(der, signed_part(pdf, sig.byte_range), sig.is_timestamp);
                let plain = VerifiedView {
                    valid,
                    byte_range: sig.byte_range,
                    signed_len: sig.byte_range[1] + sig.byte_range[3],
                    covers_whole_document: covers_document(pdf, sig.byte_range, sig.contents),
                    signer,
                    chain_trusted: None,
                    detail,
                };
                if sig.is_timestamp || store.roots.len() == 0 {
                    Ok(plain)
                } else {
                    let (trusted, more) = trust_verdict(
                        der,
                        store,
                        crls_of(extracted(pdf, lit("CRLs"))),
                        ocsps_of(extracted(pdf, lit("OCSPs"))),
                        now,
                    );
                    Ok(VerifiedView { chain_trusted: Some(trusted), detail: detail + more, ..plain })
                }
            },
        },
    }
}

/// The reference instant for validating the signer chain: the `genTime` of the
/// signature's embedded RFC 3161 timestamp, but only when that token verifies
/// cryptographically *and* the TSA's own certificate chains to a trusted root.
/// The signer-asserted `signingTime` is never used (it would let an
/// expired/revoked cert backdate itself past expiry/revocation checks).
fn trusted_time(der: &[u8], roots: &TrustStore, crls: &Vec<Crl>, ocsps: &Vec<Ocsp>, now: i64) -> (r: i64)
    ensures
        r == reference_time(der@, roots@, crl_views(crls@), ocsp_views(ocsps@), now),
{
    match verify_embedded_timestamp(der) {
        Err(_) => now,
        Ok(ts) => match signer_certificate_and_pool(&ts.token) {
            Err(_) => now,
            Ok((i, pool)) => {
                if ts.gen_time <= i64::MAX as u64 && verify_chain(&pool[i], pool, roots, crls, ocsps, now).trusted {
                    ts.gen_time as i64
                } else {
                    now
                }
            },
        },
    }
}

/// Chain validation against the trust store (regular signatures only).
fn check_trust(der: &[u8], roots: &TrustStore, crls: &Vec<Crl>, ocsps: &Vec<Ocsp>, now: i64) -> (r: (bool, String))
    ensures
        (r.0, r.1@) == trust_verdict(der@, roots@, crl_views(crls@), ocsp_views(ocsps@), now),
{
    match Cms::from_der(der) {
        Err(_) => (false, String::new()),
        Ok(c) => match signer_certificate_and_pool(&c) {
            Err(_) => (false, String::new()),
            Ok((i, pool)) => {
                let at: i64 = trusted_time(der, roots, crls, ocsps, now);
                let result: ChainResult = verify_chain(&pool[i], pool, roots, crls, ocsps, at);
                (result.trusted, "; chain: ".to_owned().concat(result.detail.as_str()))
            },
        },
    }
}

/// The view of the result of verifying one signature.
pub open spec fn verified_result(r: Result<VerifiedSignature, Error>) -> Result<VerifiedView, ErrorView> {
    match r {
        Ok(v) => Ok(v@),
        Err(e) => Err(e@),
    }
}

/// Verify a single located signature at the time `now` (seconds since the Unix
/// epoch).
pub fn verify_one(pdf: &[u8], sig: &SigLoc, roots: &TrustStore, now: i64) -> (r: Result<VerifiedSignature, Error>)
    ensures
        verified_result(r) == verified(pdf@, sig@, roots@, now),
{
    let total: usize = pdf.len();
    let range: [i64; 4] = sig.byte_range;
    if range[0] < 0 || range[1] < 0 || range[2] < 0 || range[3] < 0 {
        return Err(malformed("negative ByteRange value"));
    }
    let first_end: u64 = range[0] as u64 + range[1] as u64;
    let second_end: u64 = range[2] as u64 + range[3] as u64;
    if first_end > total as u64 || second_end > total as u64 {
        return Err(malformed("ByteRange out of bounds"));
    }
    let (s1, e1): (usize, usize) = (range[0] as usize, first_end as usize);
    let (s2, e2): (usize, usize) = (range[2] as usize, second_end as usize);

    // The CMS comes from the structurally-parsed `/Contents`, not from the bytes
    // the ByteRange happens to point at.
    let der: Vec<u8> = match cms_from_contents(&sig.contents) {
        Err(e) => {
            return Err(e);
        },
        Ok(d) => d,
    };

    let mut signed: Vec<u8> = Vec::new();
    signed.extend_from_slice(&pdf[s1..e1]);
    signed.extend_from_slice(&pdf[s2..e2]);
    assert(signed@ =~= signed_part(pdf@, range@));

    let covers_whole_document: bool = s1 == 0 && e2 == total && gap_is_contents(pdf, e1, s2, &sig.contents);

    let (valid, signer, detail): (bool, Option<String>, String) = if sig.is_timestamp {
        match verify_doc_timestamp(&der, &signed) {
            Ok(()) => (true, None, "valid document timestamp (RFC 3161)".to_owned()),
            Err(e) => (false, None, e.message()),
        }
    } else {
        match cms_verify(&der, &signed) {
            Ok(s) => {
                let d: String = "valid CMS signature; signer: ".to_owned().concat(s.as_str());
                (true, Some(s), d)
            },
            Err(e) => (false, None, e.message()),
        }
    };

    let mut detail: String = detail;
    let mut chain_trusted: Option<bool> = None;
    if !sig.is_timestamp && !roots.is_empty() {
        let crls: Vec<Crl> = parse_crls(&extract_dss_crls(pdf));
        let ocsps: Vec<Ocsp> = parse_ocsps(&extract_dss_ocsps(pdf));
        let (trusted, more) = check_trust(&der, roots, &crls, &ocsps, now);
        chain_trusted = Some(trusted);
        detail.append(more.as_str());
    }
    Ok(
        VerifiedSignature {
            valid,
            byte_range: range,
            signed_len: signed.len(),
            covers_whole_document,
            signer,
            chain_trusted,
            detail,
        },
    )
}

// ---------------------------------------------------------------------------
// All signatures

/// The outcomes of verifying located signatures one by one; the first error ends it.
pub open spec fn all_verified(pdf: Seq<u8>, sigs: Seq<SigView>, store: StoreView, now: i64) -> Result<
    Seq<VerifiedView>,
    ErrorView,
>
    decreases sigs.len(),
{
    if sigs.len() == 0 {
        Ok(Seq::empty())
    } else {
        match all_verified(pdf, sigs.drop_last(), store, now) {
            Err(e) => Err(e),
            Ok(v) => match verified(pdf, sigs.last(), store, now) {
                Err(e) => Err(e),
                Ok(x) => Ok(v.push(x)),
            },
        }
    }
}

/// The report on a document.
pub open spec fn reported(pdf: Seq<u8>, store: StoreView, now: i64) -> Result<Seq<VerifiedView>, ErrorView> {
    all_verified(pdf, signatures_of(pdf), store, now)
}

/// The view of the result of verifying a document.
pub open spec fn report_result(r: Result<SignatureReport, Error>) -> Result<Seq<VerifiedView>, ErrorView> {
    match r {
        Ok(v) => Ok(v@),
        Err(e) => Err(e@),
    }
}

/// A store without roots.
pub open spec fn no_store() -> StoreView {
    StoreView { roots: Seq::empty(), required_policy: None }
}

proof fn lemma_verified_err(pdf: Seq<u8>, sigs: Seq<SigView>, store: StoreView, now: i64, i: int)
    requires
        0 <= i <= sigs.len(),
        all_verified(pdf, sigs.take(i), store, now) is Err,
    ensures
        all_verified(pdf, sigs, store, now) is Err,
        all_verified(pdf, sigs, store, now)->Err_0 == all_verified(pdf, sigs.take(i), store, now)->Err_0,
    decreases sigs.len() - i,
{
    if i < sigs.len() {
        assert(sigs.take(i + 1).drop_last() =~= sigs.take(i));
        lemma_verified_err(pdf, sigs, store, now, i + 1);
    } else {
        assert(sigs.take(i) =~= sigs);
    }
}

/// Verify located signatures one by one.
pub fn verify_all(pdf: &[u8], sigs: &Vec<SigLoc>, roots: &TrustStore, now: i64) -> (r: Result<SignatureReport, Error>)
    ensures
        report_result(r) == all_verified(pdf@, sig_views(sigs@), roots@, now),
{
    let ghost v = sig_views(sigs@);
    let mut signatures: Vec<VerifiedSignature> = Vec::new();
    let mut i: usize = 0;
    proof {
        assert(v.take(0) =~= Seq::empty());
        assert(verified_views(signatures@) =~= Seq::empty());
    }
    while i < sigs.len()
        invariant
            i <= sigs.len(),
            v == sig_views(sigs@),
            all_verified(pdf@, v.take(i as int), roots@, now) == Ok::<Seq<VerifiedView>, ErrorView>(
                verified_views(signatures@),
            ),
        decreases sigs.len() - i,
    {
        proof {
            let t = v.take(i + 1);
            assert(t.drop_last() =~= v.take(i as int));
            assert(t.last() == sigs@[i as int]@);
        }
        match verify_one(pdf, &sigs[i], roots, now) {
            Err(e) => {
                proof {
                    lemma_verified_err(pdf@, v, roots@, now, i + 1);
                }
                return Err(e);
            },
            Ok(s) => {
                let ghost before = verified_views(signatures@);
                let ghost x = s@;
                signatures.push(s);
                assert(verified_views(signatures@) =~= before.push(x));
            },
        }
        i += 1;
    }
    assert(v.take(i as int) =~= v);
    Ok(SignatureReport { signatures })
}

/// Verify an in-memory PDF at the time `now` (seconds since the Unix epoch),
/// validating signer chains against `roots`.
pub fn verify_pdf_bytes_at(pdf: &[u8], roots: &TrustStore, now: i64) -> (r: Result<SignatureReport, Error>)
    ensures
        report_result(r) == reported(pdf@, roots@, now),
{
    verify_all(pdf, &collect_signatures(pdf), roots, now)
}

/// Verify an in-memory PDF, validating signer chains against `roots` at the current
/// time. What time it is, is not known here; the report is that of some time.
pub fn verify_pdf_bytes_with_roots(pdf: &[u8], roots: &TrustStore) -> (r: Result<SignatureReport, Error>)
    ensures
        exists|now: i64| report_result(r) == #[trigger] reported(pdf@, roots@, now),
{
    let now: i64 = match unix_now() {
        Ok(t) => if t <= i64::MAX as u64 { t as i64 } else { i64::MAX },
        Err(_) => 0,
    };
    verify_pdf_bytes_at(pdf, roots, now)
}

/// Verify all signatures of an in-memory PDF (one per `/ByteRange`). Without a trust
/// store no chain is judged, so that the time does not matter.
pub fn verify_pdf_bytes(pdf: &[u8]) -> (r: Result<SignatureReport, Error>)
    ensures
        report_result(r) == reported(pdf@, no_store(), 0),
{
    let roots: TrustStore = TrustStore::new();
    verify_pdf_bytes_at(pdf, &roots, 0)
}

// ---------------------------------------------------------------------------
// Laws

/// Without a trust store the time does not matter, and no signature gets a verdict
/// on its chain.
pub proof fn law_no_store_no_chain_verdict(pdf: Seq<u8>, sig: SigView, store: StoreView, now: i64, later: i64)
    requires
        store.roots.len() == 0,
    ensures
        verified(pdf, sig, store, now) == verified(pdf, sig, store, later),
        verified(pdf, sig, store, now) matches Ok(v) ==> v.chain_trusted is None,
{
}

/// A signature is reported valid only if its cryptographic check over exactly the
/// bytes of its byte range succeeds, whatever the trust store.
pub proof fn law_valid_means_checked(pdf: Seq<u8>, sig: SigView, store: StoreView, now: i64)
    requires
        verified(pdf, sig, store, now) is Ok,
    ensures
        ({
            let v = verified(pdf, sig, store, now)->Ok_0;
            let der = cms_in_contents(sig.contents)->Ok_0;
            let data = signed_part(pdf, sig.byte_range);
            &&& v.valid <==> (if sig.is_timestamp {
                doc_timestamp_verdict(der, data) is Ok
            } else {
                detached_verdict(der, data) is Ok
            })
            &&& v.signed_len == data.len()
        }),
{
}

/// The signer-asserted time never counts: without an embedded timestamp whose
/// authority is trusted, the chain is judged at the present time.
pub proof fn law_untrusted_timestamp_is_ignored(
    der: Seq<u8>,
    store: StoreView,
    crls: Seq<CrlView>,
    ocsps: Seq<OcspView>,
    now: i64,
)
    requires
        match embedded_timestamp(der) {
            Err(_) => true,
            Ok((_, token)) => match signer_and_pool(token) {
                Err(_) => true,
                Ok((leaf, pool)) => !chain_verdict(leaf, (Context { store, pool, crls, ocsps, at: now })).trusted,
            },
        },
    ensures
        reference_time(der, store, crls, ocsps, now) == now,
{
}

} // verus!
