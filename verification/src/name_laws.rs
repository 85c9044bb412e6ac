//! Which names lie in which subtrees, told of the names themselves.
use vstd::prelude::*;
use vstd::utf8::is_ascii_chars;

use crate::certificate::CertView;
use crate::names::{
    after_last, after_scheme, ascii_lower, ascii_lower_char, attribute_key, authority_end, constrained_by, dn_in, dns_in,
    email_in, ends_with, excluded_by, folded, host_in, host_of, in_some, in_subtree, ip_in, joined, next_text, permitted_by,
    rdn_key, skip_periods, ConstraintsView, NameView, Rdn,
};
use crate::text::{lossy_text, lowercase, next_char, text_at, words_from};
use crate::trust::{dn_emails, names_of, rdn_emails};

verus! {

// ---------------------------------------------------------------------------
// Text

/// An ASCII letter and its capital.
pub open spec fn is_capital_of(a: char, b: char) -> bool {
    'A' <= a <= 'Z' && b as int == a as int + 32
}

/// Two characters that are the same, or the same ASCII letter.
pub open spec fn same_char(a: char, b: char) -> bool {
    a == b || is_capital_of(a, b) || is_capital_of(b, a)
}

/// Two texts that differ at most in the case of ASCII letters.
pub open spec fn same_but_case(a: Seq<char>, b: Seq<char>) -> bool {
    a.len() == b.len() && forall|i: int| 0 <= i < a.len() ==> same_char(#[trigger] a[i], b[i])
}

proof fn lemma_lower_char(a: char)
    ensures
        'A' <= a <= 'Z' ==> ascii_lower_char(a) as int == a as int + 32,
        !('A' <= a <= 'Z') ==> ascii_lower_char(a) == a,
{
    let n = a as u32;
    if 'A' <= a <= 'Z' {
        assert(65 <= n <= 90);
        assert((n + 32) as u8 == n + 32);
    }
}

proof fn lemma_same_char(a: char, b: char)
    ensures
        ascii_lower_char(a) == ascii_lower_char(b) <==> same_char(a, b),
{
    lemma_lower_char(a);
    lemma_lower_char(b);
    if ascii_lower_char(a) as int == ascii_lower_char(b) as int {
        assert(ascii_lower_char(a) == ascii_lower_char(b));
    }
}

/// Texts are the same in lower case exactly if they differ at most in the case of ASCII
/// letters.
pub proof fn law_case_is_folded(a: Seq<char>, b: Seq<char>)
    ensures
        ascii_lower(a) == ascii_lower(b) <==> same_but_case(a, b),
{
    let (x, y) = (ascii_lower(a), ascii_lower(b));
    assert(x.len() == a.len() && y.len() == b.len());
    if x == y {
        assert forall|i: int| 0 <= i < a.len() implies same_char(#[trigger] a[i], b[i]) by {
            assert(x[i] == y[i]);
            lemma_same_char(a[i], b[i]);
        }
    }
    if same_but_case(a, b) {
        assert forall|i: int| 0 <= i < a.len() implies x[i] == y[i] by {
            assert(same_char(a[i], b[i]));
            lemma_same_char(a[i], b[i]);
        }
        assert(x =~= y);
    }
}

/// The end of a text is another text but for the case of ASCII letters.
pub open spec fn ends_but_case(s: Seq<char>, t: Seq<char>) -> bool {
    t.len() <= s.len() && same_but_case(s.skip(s.len() - t.len()), t)
}

proof fn lemma_ends(s: Seq<char>, t: Seq<char>)
    ensures
        ends_with(ascii_lower(s), ascii_lower(t)) <==> ends_but_case(s, t),
{
    let (x, y) = (ascii_lower(s), ascii_lower(t));
    if t.len() <= s.len() {
        let n = s.len() - t.len();
        assert(x.subrange(n, x.len() as int) =~= ascii_lower(s.skip(n)));
        law_case_is_folded(s.skip(n), t);
    }
}

// ---------------------------------------------------------------------------
// Hosts, mail boxes, addresses

/// A host lies in a base without a period in front exactly if it is the base, and in one
/// with a period exactly if it ends in it. Case does not matter.
pub proof fn law_host_subtrees(host: Seq<char>, base: Seq<char>)
    ensures
        (base.len() == 0 || base[0] != '.') ==> (host_in(host, base) <==> same_but_case(host, base)),
        base.len() > 0 && base[0] == '.' ==> (host_in(host, base) <==> ends_but_case(host, base)),
{
    law_case_is_folded(host, base);
    lemma_ends(host, base);
    if base.len() > 0 {
        lemma_lower_char(base[0]);
        assert(ascii_lower(base)[0] == ascii_lower_char(base[0]));
    }
}

/// Some periods.
pub open spec fn periods(n: nat) -> Seq<char> {
    Seq::new(n, |i: int| '.')
}

proof fn lemma_skip_periods(n: nat, domain: Seq<char>, i: int)
    requires
        0 <= i <= n,
        domain.len() == 0 || domain[0] != '.',
    ensures
        skip_periods(periods(n) + domain, i) == n,
    decreases n - i,
{
    let s = periods(n) + domain;
    if i < n {
        assert(s[i] == '.');
        lemma_skip_periods(n, domain, i + 1);
    } else if domain.len() > 0 {
        assert(s[i] == domain[0]);
    }
}

/// A DNS name lies in a domain exactly if it is the domain or ends in a period and the
/// domain; every name lies in the empty domain. Periods before the domain do not matter,
/// nor does case.
pub proof fn law_dns_subtrees(name: Seq<char>, n: nat, domain: Seq<char>)
    requires
        domain.len() == 0 || domain[0] != '.',
    ensures
        dns_in(name, periods(n) + domain) <==> domain.len() == 0 || same_but_case(name, domain) || ends_but_case(
            name,
            seq!['.'] + domain,
        ),
{
    let base = periods(n) + domain;
    lemma_skip_periods(n, domain, 0);
    assert(base.skip(n as int) =~= domain);
    law_case_is_folded(name, domain);
    lemma_ends(name, seq!['.'] + domain);
    lemma_lower_char('.');
    assert(ascii_lower(seq!['.'] + domain) =~= seq!['.'] + ascii_lower(domain));
}

/// A text without a character.
pub open spec fn lacks(s: Seq<char>, c: char) -> bool {
    forall|i: int| 0 <= i < s.len() ==> (#[trigger] s[i]) != c
}

/// The first place of a character that a text lacks up to there.
pub proof fn lemma_next_char(a: Seq<char>, c: char, b: Seq<char>, i: int)
    requires
        0 <= i <= a.len(),
        lacks(a, c),
        b.len() == 0 || b[0] == c,
    ensures
        next_char(a + b, c, i) == a.len(),
    decreases a.len() - i,
{
    let s = a + b;
    if i < a.len() {
        assert(s[i] == a[i]);
        lemma_next_char(a, c, b, i + 1);
    } else if b.len() > 0 {
        assert(s[i] == b[0]);
    }
}

proof fn lemma_lower_lacks(s: Seq<char>)
    requires
        lacks(s, '@'),
    ensures
        lacks(ascii_lower(s), '@'),
{
    assert forall|i: int| 0 <= i < s.len() implies (#[trigger] ascii_lower(s)[i]) != '@' by {
        assert(s[i] != '@');
        lemma_lower_char(s[i]);
    }
}

/// A mail address lies in a base that is an address exactly if it is that address; in
/// another base exactly if what stands behind its first `@` does; a text without `@` in
/// none of those.
pub proof fn law_mail_subtrees(local: Seq<char>, host: Seq<char>, base: Seq<char>)
    requires
        lacks(local, '@'),
    ensures
        !lacks(base, '@') ==> (email_in(local + seq!['@'] + host, base) <==> same_but_case(
            local + seq!['@'] + host,
            base,
        )),
        lacks(base, '@') ==> (email_in(local + seq!['@'] + host, base) <==> host_in(host, base)),
        lacks(base, '@') ==> !email_in(local, base),
{
    let name = local + seq!['@'] + host;
    let (n, b) = (ascii_lower(name), ascii_lower(base));
    lemma_lower_char('@');
    if lacks(base, '@') {
        lemma_lower_lacks(base);
        lemma_next_char(b, '@', Seq::empty(), 0);
        assert(b + Seq::<char>::empty() =~= b);
        lemma_lower_lacks(local);
        let l = ascii_lower(local);
        let rest = seq!['@'] + ascii_lower(host);
        assert(n =~= l + rest);
        lemma_next_char(l, '@', rest, 0);
        assert(n.skip(l.len() as int + 1) =~= ascii_lower(host));
        lemma_twice(host);
        lemma_twice(base);
        lemma_next_char(l, '@', Seq::empty(), 0);
        assert(l + Seq::<char>::empty() =~= l);
    } else {
        let i = choose|i: int| 0 <= i < base.len() && (#[trigger] base[i]) == '@';
        lemma_lower_char(base[i]);
        assert(b[i] == '@');
        lemma_next_before(b, '@', 0, i);
        law_case_is_folded(name, base);
    }
}

proof fn lemma_twice(s: Seq<char>)
    ensures
        ascii_lower(ascii_lower(s)) == ascii_lower(s),
{
    assert forall|i: int| 0 <= i < s.len() implies ascii_lower(ascii_lower(s))[i] == ascii_lower(s)[i] by {
        lemma_lower_char(s[i]);
        lemma_lower_char(ascii_lower_char(s[i]));
    }
    assert(ascii_lower(ascii_lower(s)) =~= ascii_lower(s));
}

proof fn lemma_next_before(s: Seq<char>, c: char, i: int, k: int)
    requires
        0 <= i <= k < s.len(),
        s[k] == c,
    ensures
        next_char(s, c, i) <= k,
    decreases k - i,
{
    if s[i] != c {
        lemma_next_before(s, c, i + 1, k);
    }
}

/// An address lies in a network, address and mask of the same length, exactly if it agrees
/// with the network's address in every bit of the mask.
pub proof fn law_networks(name: Seq<u8>, address: Seq<u8>, mask: Seq<u8>)
    requires
        address.len() == mask.len(),
    ensures
        ip_in(name, address + mask) <==> name.len() == address.len() && forall|i: int|
            0 <= i < name.len() ==> (#[trigger] name[i]) & mask[i] == address[i] & mask[i],
        name.len() == address.len() && mask == Seq::new(name.len(), |i: int| 0xffu8) ==> (ip_in(name, address + mask)
            <==> name == address),
{
    let base = address + mask;
    assert forall|i: int| 0 <= i < address.len() implies #[trigger] base[i] == address[i] && base[address.len() + i]
        == mask[i] by {}
    if name.len() == address.len() {
        assert forall|i: int| #![trigger name[i]] 0 <= i < name.len() implies base[name.len() + i] == mask[i] && base[i]
            == address[i] by {}
    }
    if ip_in(name, base) {
        assert forall|i: int| 0 <= i < name.len() implies (#[trigger] name[i]) & mask[i] == address[i] & mask[i] by {
            assert(base[name.len() + i] == mask[i]);
        }
    }
    if name.len() == address.len() && mask == Seq::new(name.len(), |i: int| 0xffu8) {
        assert(forall|x: u8| #[trigger] (x & 0xffu8) == x) by (bit_vector);
        if ip_in(name, base) {
            assert forall|i: int| 0 <= i < name.len() implies name[i] == address[i] by {
                assert(name[i] & mask[i] == address[i] & mask[i]);
                assert(mask[i] == 0xff);
            }
            assert(name =~= address);
        }
    }
}

// ---------------------------------------------------------------------------
// Hosts of URIs

/// A character that ends the authority of a URI.
pub open spec fn ends_authority(c: char) -> bool {
    c == '/' || c == '?' || c == '#'
}

/// A part of an authority: no character of it ends the authority.
pub open spec fn stays_inside(s: Seq<char>) -> bool {
    forall|i: int| 0 <= i < s.len() ==> !ends_authority(#[trigger] s[i])
}

proof fn lemma_authority_end(a: Seq<char>, b: Seq<char>, i: int)
    requires
        0 <= i <= a.len(),
        stays_inside(a),
        b.len() == 0 || ends_authority(b[0]),
    ensures
        authority_end(a + b, i) == a.len(),
    decreases a.len() - i,
{
    let s = a + b;
    if i < a.len() {
        assert(s[i] == a[i]);
        lemma_authority_end(a, b, i + 1);
    } else if b.len() > 0 {
        assert(s[i] == b[0]);
    }
}

/// The place behind the last of a character.
pub proof fn lemma_after_last(a: Seq<char>, c: char, b: Seq<char>, n: int)
    requires
        a.len() == 0 || a[a.len() - 1] == c,
        lacks(b, c),
        a.len() <= n <= (a + b).len(),
    ensures
        after_last(a + b, c, n) == a.len(),
    decreases n,
{
    let s = a + b;
    if n > a.len() {
        assert(s[n - 1] == b[n - 1 - a.len()]);
        lemma_after_last(a, c, b, n - 1);
    } else if n > 0 {
        assert(s[n - 1] == a[n - 1]);
    }
}

proof fn lemma_no_text(s: Seq<char>, t: Seq<char>, i: int)
    requires
        0 <= i,
        forall|k: int| !#[trigger] text_at(s, t, k),
    ensures
        next_text(s, t, i) == s.len(),
    decreases s.len() - i,
{
    if i < s.len() {
        assert(!text_at(s, t, i));
        lemma_no_text(s, t, i + 1);
    }
}

proof fn lemma_first_separator(scheme: Seq<char>, rest: Seq<char>, i: int)
    requires
        0 <= i <= scheme.len(),
        lacks(scheme, ':'),
    ensures
        next_text(scheme + "://"@ + rest, "://"@, i) == scheme.len(),
    decreases scheme.len() - i,
{
    reveal_strlit("://");
    let s = scheme + "://"@ + rest;
    if i < scheme.len() {
        assert(s[i] == scheme[i]);
        if text_at(s, "://"@, i) {
            assert(s.subrange(i, i + 3)[0] == "://"@[0]);
            assert(s.subrange(i, i + 3)[0] == s[i]);
        }
        lemma_first_separator(scheme, rest, i + 1);
    } else {
        assert(s.subrange(i, i + 3) =~= "://"@);
    }
}

/// The host of a URI: what stands in its authority between the user, which ends in `@`, and
/// the port, which begins with a colon, either of which may be missing.
#[verifier::rlimit(40)]
pub proof fn law_host_of_uri(scheme: Seq<char>, user: Seq<char>, host: Seq<char>, port: Seq<char>, tail: Seq<char>)
    requires
        lacks(scheme, ':'),
        stays_inside(user) && (user.len() == 0 || user[user.len() - 1] == '@'),
        stays_inside(host) && lacks(host, '@') && lacks(host, ':'),
        stays_inside(port) && lacks(port, '@') && (port.len() == 0 || port[0] == ':'),
        tail.len() == 0 || ends_authority(tail[0]),
        forall|k: int| !#[trigger] text_at(user + host + port + tail, "://"@, k),
    ensures
        host_of(scheme + "://"@ + (user + host + port + tail)) == host,
{
    reveal_strlit("://");
    let rest = user + host + port + tail;
    let uri = scheme + "://"@ + rest;
    lemma_first_separator(scheme, rest, 0);
    assert(uri.skip(scheme.len() as int + 3) =~= rest);
    lemma_no_text(rest, "://"@, 0);
    assert(rest.take(rest.len() as int) =~= rest);
    assert(after_scheme(uri) == rest);
    let authority = user + host + port;
    assert(stays_inside(authority)) by {
        assert forall|i: int| 0 <= i < authority.len() implies !ends_authority(#[trigger] authority[i]) by {
            if i < user.len() {
                assert(authority[i] == user[i]);
            } else if i < user.len() + host.len() {
                assert(authority[i] == host[i - user.len()]);
            } else {
                assert(authority[i] == port[i - user.len() - host.len()]);
            }
        }
    }
    lemma_authority_end(authority, tail, 0);
    assert(rest =~= authority + tail);
    assert(rest.take(authority.len() as int) =~= authority);
    let hp = host + port;
    assert(lacks(hp, '@')) by {
        assert forall|i: int| 0 <= i < hp.len() implies (#[trigger] hp[i]) != '@' by {
            if i < host.len() {
                assert(hp[i] == host[i]);
            } else {
                assert(hp[i] == port[i - host.len()]);
            }
        }
    }
    assert(authority =~= user + hp);
    lemma_after_last(user, '@', hp, authority.len() as int);
    assert(authority.skip(user.len() as int) =~= hp);
    lemma_next_char(host, ':', port, 0);
    assert(hp.take(host.len() as int) =~= host);
}

// ---------------------------------------------------------------------------
// Distinguished names

/// Two attributes are the same for a comparison: type and folded value.
pub open spec fn same_attribute(a: (Seq<u8>, Seq<u8>), b: (Seq<u8>, Seq<u8>)) -> bool {
    a.0 == b.0 && folded(a.1) == folded(b.1)
}

/// An attribute is one of a part of a name.
pub open spec fn has_attribute(rdn: Rdn, a: (Seq<u8>, Seq<u8>)) -> bool {
    exists|k: int| 0 <= k < rdn.len() && same_attribute(a, #[trigger] rdn[k])
}

/// Each attribute of one part of a name is one of another.
pub open spec fn attributes_among(a: Rdn, b: Rdn) -> bool {
    forall|i: int| 0 <= i < a.len() ==> has_attribute(b, #[trigger] a[i])
}

proof fn lemma_rdn_subset(a: Rdn, b: Rdn)
    ensures
        rdn_key(a).subset_of(rdn_key(b)) <==> attributes_among(a, b),
{
    if rdn_key(a).subset_of(rdn_key(b)) {
        assert forall|i: int| 0 <= i < a.len() implies has_attribute(b, #[trigger] a[i]) by {
            assert(rdn_key(a).contains(attribute_key(a, i)));
            assert(rdn_key(b).contains(attribute_key(a, i)));
            let k = choose|k: int| 0 <= k < b.len() && #[trigger] attribute_key(b, k) == attribute_key(a, i);
            assert(same_attribute(a[i], b[k]));
        }
    }
    if attributes_among(a, b) {
        assert forall|x: (Seq<u8>, Seq<char>)| #[trigger] rdn_key(a).contains(x) implies rdn_key(b).contains(x) by {
            let i = choose|i: int| 0 <= i < a.len() && #[trigger] attribute_key(a, i) == x;
            assert(has_attribute(b, a[i]));
            let k = choose|k: int| 0 <= k < b.len() && same_attribute(a[i], #[trigger] b[k]);
            assert(attribute_key(b, k) == x);
        }
        assert(rdn_key(a).subset_of(rdn_key(b)));
    }
}

/// A distinguished name lies in a subtree exactly if its first parts are those of the base,
/// one by one, where a part is the set of its attributes.
pub proof fn law_directory_subtrees(name: Seq<Rdn>, base: Seq<Rdn>)
    ensures
        dn_in(name, base) <==> base.len() <= name.len() && forall|i: int|
            0 <= i < base.len() ==> attributes_among(#[trigger] base[i], name[i]) && attributes_among(name[i], base[i]),
{
    assert forall|i: int| 0 <= i < base.len() implies (#[trigger] rdn_key(base[i]) == rdn_key(name[i]) <==> (
    attributes_among(base[i], name[i]) && attributes_among(name[i], base[i]))) by {
        lemma_rdn_subset(base[i], name[i]);
        lemma_rdn_subset(name[i], base[i]);
        if rdn_key(base[i]).subset_of(rdn_key(name[i])) && rdn_key(name[i]).subset_of(rdn_key(base[i])) {
            assert(rdn_key(base[i]) =~= rdn_key(name[i]));
        }
    }
    if base.len() <= name.len() && forall|i: int|
        0 <= i < base.len() ==> attributes_among(#[trigger] base[i], name[i]) && attributes_among(name[i], base[i]) {
        assert forall|i: int| 0 <= i < base.len() implies #[trigger] rdn_key(base[i]) == rdn_key(name[i]) by {
            assert(attributes_among(base[i], name[i]));
        }
    }
    if dn_in(name, base) {
        assert forall|i: int| 0 <= i < base.len() implies attributes_among(#[trigger] base[i], name[i])
            && attributes_among(name[i], base[i]) by {
            assert(rdn_key(base[i]) == rdn_key(name[i]));
        }
    }
}

/// Two words that are the same in lower case are the same value, whatever stands for them.
pub proof fn law_words_are_compared(a: Seq<u8>, b: Seq<u8>)
    ensures
        folded(a) == folded(b) <==> lowercase(joined(words_from(lossy_text(a), 0))) == lowercase(
            joined(words_from(lossy_text(b), 0)),
        ),
        forall|w: Seq<Seq<char>>, x: Seq<char>|
            w.len() > 0 ==> #[trigger] joined(w.push(x)) == joined(w) + seq![' '] + x,
        forall|x: Seq<char>| #[trigger] joined(seq![x]) == x,
{
    assert forall|w: Seq<Seq<char>>, x: Seq<char>| w.len() > 0 implies #[trigger] joined(w.push(x)) == joined(w)
        + seq![' '] + x by {
        assert(w.push(x).drop_last() =~= w);
    }
    assert forall|x: Seq<char>| #[trigger] joined(seq![x]) == x by {
        let w = seq![x];
        assert(w.drop_last() =~= Seq::empty());
        assert(joined(w.drop_last()) =~= Seq::empty());
        assert(joined(w) =~= x);
    }
}

// ---------------------------------------------------------------------------
// Subtrees and constraints

/// Two names of the same kind, to which a constraint can apply.
pub open spec fn same_kind(a: NameView, b: NameView) -> bool {
    ||| a is Directory && b is Directory
    ||| a is Dns && b is Dns
    ||| a is Email && b is Email
    ||| a is Ip && b is Ip
    ||| a is Uri && b is Uri
}

/// A constraint applies to names of its own kind only, and each kind has its own rule: a
/// URI is judged by its host.
pub proof fn law_kinds_of_names(name: NameView, base: NameView)
    ensures
        in_subtree(name, base) is Some <==> same_kind(name, base),
        name is Directory && base is Directory ==> in_subtree(name, base) == Some(
            dn_in(name->Directory_0, base->Directory_0),
        ),
        name is Dns && base is Dns ==> in_subtree(name, base) == Some(dns_in(name->Dns_0, base->Dns_0)),
        name is Email && base is Email ==> in_subtree(name, base) == Some(email_in(name->Email_0, base->Email_0)),
        name is Ip && base is Ip ==> in_subtree(name, base) == Some(ip_in(name->Ip_0, base->Ip_0)),
        name is Uri && base is Uri ==> in_subtree(name, base) == Some(host_in(host_of(name->Uri_0), base->Uri_0)),
{
}

/// A name in an excluded subtree is excluded, whatever is permitted beside. Where there is
/// a permitted subtree of its kind a name must lie in one of them; otherwise it is free.
pub proof fn law_constraints_on_names(name: NameView, nc: ConstraintsView, i: int)
    ensures
        nc.excluded is None ==> !excluded_by(name, nc),
        nc.permitted is None ==> permitted_by(name, nc),
        nc.excluded matches Some(bases) ==> {
            &&& 0 <= i < bases.len() && in_subtree(name, bases[i]) == Some(true) ==> excluded_by(name, nc)
            &&& (forall|k: int| 0 <= k < bases.len() ==> in_subtree(name, #[trigger] bases[k]) != Some(true))
                ==> !excluded_by(name, nc)
        },
        nc.permitted matches Some(bases) ==> {
            &&& 0 <= i < bases.len() && in_subtree(name, bases[i]) == Some(true) ==> permitted_by(name, nc)
            &&& 0 <= i < bases.len() && same_kind(name, bases[i]) && (forall|k: int|
                0 <= k < bases.len() ==> in_subtree(name, #[trigger] bases[k]) != Some(true)) ==> !permitted_by(name, nc)
            &&& (forall|k: int| 0 <= k < bases.len() ==> !same_kind(name, #[trigger] bases[k])) ==> permitted_by(
                name,
                nc,
            )
        },
{
    if let Some(bases) = nc.permitted {
        if 0 <= i < bases.len() {
            law_kinds_of_names(name, bases[i]);
        }
        assert forall|k: int| 0 <= k < bases.len() implies (in_subtree(name, #[trigger] bases[k]) is Some <==> same_kind(
            name,
            bases[k],
        )) by {
            law_kinds_of_names(name, bases[k]);
        }
        if forall|k: int| 0 <= k < bases.len() ==> !same_kind(name, #[trigger] bases[k]) {
            if constrained_by(name, bases) {
                let k = choose|k: int| 0 <= k < bases.len() && #[trigger] in_subtree(name, bases[k]) is Some;
                assert(!same_kind(name, bases[k]));
            }
        }
        if forall|k: int| 0 <= k < bases.len() ==> in_subtree(name, #[trigger] bases[k]) != Some(true) {
            if in_some(name, bases) {
                let k = choose|k: int| 0 <= k < bases.len() && #[trigger] in_subtree(name, bases[k]) == Some(true);
                assert(in_subtree(name, bases[k]) != Some(true));
            }
        }
    }
    if let Some(bases) = nc.excluded {
        if forall|k: int| 0 <= k < bases.len() ==> in_subtree(name, #[trigger] bases[k]) != Some(true) {
            if in_some(name, bases) {
                let k = choose|k: int| 0 <= k < bases.len() && #[trigger] in_subtree(name, bases[k]) == Some(true);
                assert(in_subtree(name, bases[k]) != Some(true));
            }
        }
    }
}

/// A mail address in a distinguished name: the text of an `emailAddress`
/// (1.2.840.113549.1.9.1) in ASCII.
pub open spec fn is_email_of(name: Seq<Rdn>, i: int, k: int, text: Seq<char>) -> bool {
    &&& 0 <= i < name.len() && 0 <= k < name[i].len()
    &&& name[i][k].0 == seq![0x2au8, 0x86, 0x48, 0x86, 0xf7, 0x0d, 0x01, 0x09, 0x01]
    &&& text == lossy_text(name[i][k].1)
    &&& forall|j: int| 0 <= j < text.len() ==> (#[trigger] text[j]) as int <= 0x7f
}

proof fn lemma_least_char(c: char)
    ensures
        '\0' <= c,
{
}

proof fn lemma_ascii(text: Seq<char>)
    ensures
        is_ascii_chars(text) <==> forall|j: int| 0 <= j < text.len() ==> (#[trigger] text[j]) as int <= 0x7f,
{
    if forall|j: int| 0 <= j < text.len() ==> (#[trigger] text[j]) as int <= 0x7f {
        assert forall|j: int| 0 <= j < text.len() implies '\0' <= #[trigger] text[j] <= '\u{7f}' by {
            lemma_least_char(text[j]);
        }
    }
}

proof fn lemma_rdn_emails(name: Seq<Rdn>, i: int, rdn: Rdn, n: NameView)
    requires
        0 <= i < name.len(),
        rdn.len() <= name[i].len(),
        rdn == name[i].take(rdn.len() as int),
    ensures
        rdn_emails(rdn).contains(n) <==> n is Email && exists|k: int|
            k < rdn.len() && #[trigger] is_email_of(name, i, k, n->Email_0),
    decreases rdn.len(),
{
    assert(crate::oids::email_address_oid() =~= seq![0x2au8, 0x86, 0x48, 0x86, 0xf7, 0x0d, 0x01, 0x09, 0x01]);
    if rdn.len() > 0 {
        let t = rdn.drop_last();
        assert(t =~= name[i].take(t.len() as int));
        lemma_rdn_emails(name, i, t, n);
        let (all, rest) = (rdn_emails(rdn), rdn_emails(t));
        let last = rdn.len() - 1;
        let text = lossy_text(rdn.last().1);
        lemma_ascii(text);
        assert(rdn.last() == name[i][last]);
        assert(is_email_of(name, i, last, text) <==> rdn.last().0 == crate::oids::email_address_oid() && is_ascii_chars(
            text,
        ));
        if all.contains(n) {
            let q = choose|q: int| 0 <= q < all.len() && all[q] == n;
            if q < rest.len() {
                assert(rest[q] == n);
                assert(rest.contains(n));
            } else {
                assert(n == NameView::Email(text));
                assert(is_email_of(name, i, last, n->Email_0));
            }
        }
        if n is Email && exists|k: int| k < rdn.len() && #[trigger] is_email_of(name, i, k, n->Email_0) {
            let k = choose|k: int| k < rdn.len() && #[trigger] is_email_of(name, i, k, n->Email_0);
            if k == last {
                assert(n == NameView::Email(text));
                assert(all[all.len() - 1] == n);
            } else {
                assert(rest.contains(n));
                let q = choose|q: int| 0 <= q < rest.len() && rest[q] == n;
                assert(all[q] == n);
            }
        }
    }
}

proof fn lemma_dn_emails(name: Seq<Rdn>, part: Seq<Rdn>, n: NameView)
    requires
        part.len() <= name.len(),
        part == name.take(part.len() as int),
    ensures
        dn_emails(part).contains(n) <==> n is Email && exists|i: int, k: int|
            i < part.len() && #[trigger] is_email_of(name, i, k, n->Email_0),
    decreases part.len(),
{
    if part.len() > 0 {
        let t = part.drop_last();
        assert(t =~= name.take(t.len() as int));
        lemma_dn_emails(name, t, n);
        let last = part.len() - 1;
        assert(part.last() == name[last]);
        assert(name[last].take(name[last].len() as int) =~= name[last]);
        lemma_rdn_emails(name, last, name[last], n);
        let (a, b) = (dn_emails(t), rdn_emails(part.last()));
        let all = dn_emails(part);
        assert(all == a + b);
        if all.contains(n) {
            let q = choose|q: int| 0 <= q < all.len() && all[q] == n;
            if q < a.len() {
                assert(a[q] == n);
                assert(a.contains(n));
            } else {
                assert(b[q - a.len()] == n);
                assert(b.contains(n));
                let k = choose|k: int| k < name[last].len() && #[trigger] is_email_of(name, last, k, n->Email_0);
                assert(is_email_of(name, last, k, n->Email_0));
            }
        }
        if n is Email && exists|i: int, k: int| i < part.len() && #[trigger] is_email_of(name, i, k, n->Email_0) {
            let (i, k) = choose|i: int, k: int| i < part.len() && #[trigger] is_email_of(name, i, k, n->Email_0);
            if i == last {
                assert(k < name[last].len() && is_email_of(name, last, k, n->Email_0));
                assert(b.contains(n));
                let q = choose|q: int| 0 <= q < b.len() && b[q] == n;
                assert(all[a.len() + q] == n);
            } else {
                assert(a.contains(n));
                let q = choose|q: int| 0 <= q < a.len() && a[q] == n;
                assert(all[q] == n);
            }
        }
    }
}

/// The names of a certificate that constraints apply to: its subject unless that is empty,
/// the mail addresses in the subject, and the alternative names.
pub proof fn law_names_of_a_certificate(cert: CertView, n: NameView)
    ensures
        names_of(cert).contains(n) <==> {
            ||| cert.subject.rdns.len() > 0 && n == NameView::Directory(cert.subject.rdns)
            ||| n is Email && exists|i: int, k: int| #[trigger] is_email_of(cert.subject.rdns, i, k, n->Email_0)
            ||| cert.alt_names matches Some(v) && v.contains(n)
        },
{
    let name = cert.subject.rdns;
    assert(name.take(name.len() as int) =~= name);
    lemma_dn_emails(name, name, n);
    let a = if name.len() > 0 {
        seq![NameView::Directory(name)]
    } else {
        Seq::empty()
    };
    let b = dn_emails(name);
    let c = match cert.alt_names {
        Some(v) => v,
        None => Seq::empty(),
    };
    let all = names_of(cert);
    assert(all == a + b + c);
    if all.contains(n) {
        let q = choose|q: int| 0 <= q < all.len() && all[q] == n;
        if q < a.len() {
            assert(a[q] == n);
        } else if q < a.len() + b.len() {
            assert(b[q - a.len()] == n);
            assert(b.contains(n));
        } else {
            assert(c[q - a.len() - b.len()] == n);
            assert(c.contains(n));
        }
    }
    if name.len() > 0 && n == NameView::Directory(name) {
        assert(all[0] == n);
    }
    if b.contains(n) {
        let q = choose|q: int| 0 <= q < b.len() && b[q] == n;
        assert(all[a.len() + q] == n);
    }
    if c.contains(n) {
        let q = choose|q: int| 0 <= q < c.len() && c[q] == n;
        assert(all[a.len() + b.len() + q] == n);
    }
}

} // verus!
