//! Which outside check decides on a signature, by the algorithm that is named.
use vstd::prelude::*;

use crate::keys::{
    ed25519_holds, p256_holds, p384_holds, rsa_sha256_holds, rsa_sha384_holds, rsa_sha512_holds, signature_holds,
};
use crate::error::ErrorView;
use crate::signer::{kind_of, KeyAlgorithmView, KeyKind};

verus! {

/// One of the arcs of RSA signature algorithms (1.2.840.113549.1.1).
pub open spec fn pkcs1_arc(last: u8) -> Seq<u8> {
    seq![0x2au8, 0x86, 0x48, 0x86, 0xf7, 0x0d, 0x01, 0x01, last]
}

/// One of the arcs of ECDSA with a hash of the SHA-2 family (1.2.840.10045.4.3).
pub open spec fn ecdsa_arc(last: u8) -> Seq<u8> {
    seq![0x2au8, 0x86, 0x48, 0xce, 0x3d, 0x04, 0x03, last]
}

/// The curve check of the key and the signature says that an ECDSA signature holds: that
/// of P-256, or that of P-384 where they are not of P-256.
pub open spec fn curve_check(spki: Seq<u8>, msg: Seq<u8>, sig: Seq<u8>) -> bool {
    p256_holds(spki, msg, sig) == Some(true) || (p256_holds(spki, msg, sig) is None && p384_holds(spki, msg, sig) == Some(
        true,
    ))
}

/// The outside check that an algorithm stands for says that a signature holds.
pub open spec fn checks_out(msg: Seq<u8>, oid: Seq<u8>, sig: Seq<u8>, spki: Seq<u8>) -> bool {
    ||| oid == pkcs1_arc(11) && rsa_sha256_holds(spki, msg, sig) == Ok::<bool, Seq<char>>(true)
    ||| oid == pkcs1_arc(12) && rsa_sha384_holds(spki, msg, sig) == Ok::<bool, Seq<char>>(true)
    ||| oid == pkcs1_arc(13) && rsa_sha512_holds(spki, msg, sig) == Ok::<bool, Seq<char>>(true)
    ||| (oid == ecdsa_arc(2) || oid == ecdsa_arc(3) || oid == ecdsa_arc(4)) && curve_check(spki, msg, sig)
    ||| oid == seq![0x2bu8, 0x65, 0x70] && ed25519_holds(spki, msg, sig) == Some(true)
}

/// A signature under a named algorithm is accepted exactly if the check of that algorithm
/// accepts it, under the key and over the message: sha256WithRSAEncryption and its
/// siblings, ECDSA with SHA-256, SHA-384 or SHA-512, and Ed25519; no other algorithm.
pub proof fn law_signature_is_checked(msg: Seq<u8>, oid: Seq<u8>, sig: Seq<u8>, spki: Seq<u8>)
    ensures
        signature_holds(msg, oid, sig, spki) <==> checks_out(msg, oid, sig, spki),
{
    let (a, b, c) = (pkcs1_arc(11), pkcs1_arc(12), pkcs1_arc(13));
    let (d, e, f) = (ecdsa_arc(2), ecdsa_arc(3), ecdsa_arc(4));
    let g = seq![0x2bu8, 0x65, 0x70];
    assert(a =~= crate::oids::sha256_with_rsa_oid());
    assert(b =~= crate::oids::sha384_with_rsa_oid());
    assert(c =~= crate::oids::sha512_with_rsa_oid());
    assert(d =~= crate::oids::ecdsa_with_sha256_oid());
    assert(e =~= crate::oids::ecdsa_with_sha384_oid());
    assert(f =~= crate::oids::ecdsa_with_sha512_oid());
    assert(g =~= crate::oids::ed25519_oid());
    assert(a[8] == 11 && b[8] == 12 && c[8] == 13);
    assert(a.len() == 9 && b.len() == 9 && c.len() == 9 && d.len() == 8 && e.len() == 8 && f.len() == 8 && g.len() == 3);
}

/// The last byte of the identifier of a named curve, and the arc that it stands under:
/// `prime256v1` (1.2.840.10045.3.1.7) and `secp384r1` (1.3.132.0.34).
pub open spec fn curve_arc(kind: KeyKind) -> Seq<u8> {
    if kind is P256 {
        seq![0x2au8, 0x86, 0x48, 0xce, 0x3d, 0x03, 0x01, 0x07]
    } else {
        seq![0x2bu8, 0x81, 0x04, 0x00, 0x22]
    }
}

/// A key signs as its algorithm says: RSA, Ed25519, or ECDSA on one of two curves. Keys of
/// other kinds are refused.
pub proof fn law_kinds_of_keys(a: KeyAlgorithmView)
    ensures
        kind_of(a) == Ok::<KeyKind, ErrorView>(KeyKind::Rsa) <==> a.oid == pkcs1_arc(1),
        kind_of(a) == Ok::<KeyKind, ErrorView>(KeyKind::Ed25519) <==> a.oid == seq![0x2bu8, 0x65, 0x70],
        kind_of(a) == Ok::<KeyKind, ErrorView>(KeyKind::P256) <==> a.oid == seq![
            0x2au8,
            0x86,
            0x48,
            0xce,
            0x3d,
            0x02,
            0x01,
        ] && (a.curve matches Ok((c, _)) && c == curve_arc(KeyKind::P256)),
        kind_of(a) == Ok::<KeyKind, ErrorView>(KeyKind::P384) <==> a.oid == seq![
            0x2au8,
            0x86,
            0x48,
            0xce,
            0x3d,
            0x02,
            0x01,
        ] && (a.curve matches Ok((c, _)) && c == curve_arc(KeyKind::P384)),
{
    let (r, e, c) = (pkcs1_arc(1), seq![0x2bu8, 0x65, 0x70], seq![0x2au8, 0x86, 0x48, 0xce, 0x3d, 0x02, 0x01]);
    assert(r =~= crate::oids::rsa_encryption_oid());
    assert(e =~= crate::oids::ed25519_oid());
    assert(c =~= crate::oids::ec_public_key_oid());
    assert(r.len() == 9 && e.len() == 3 && c.len() == 7);
    assert(curve_arc(KeyKind::P256) =~= crate::oids::secp256r1_oid());
    assert(curve_arc(KeyKind::P384) =~= crate::oids::secp384r1_oid());
    assert(curve_arc(KeyKind::P256).len() == 8 && curve_arc(KeyKind::P384).len() == 5);
}

} // verus!
