//! RFC 5280 name constraints (§4.2.1.10): which names lie in which subtrees.
use vstd::prelude::*;

use crate::policy::pairs_of;
use crate::text::{
    chars_of, find_char, from_utf8_lossy, is_text_at, lossy_text, lowercase, next_char, part,
    split_words, string_of, text_at, texts, to_lowercase, words_from,
};
use crate::util::bytes_eq;

verus! {

// ---------------------------------------------------------------------------
// Text

/// A character with an ASCII capital in lower case.
pub open spec fn ascii_lower_char(c: char) -> char {
    if 'A' <= c <= 'Z' { (c as u32 + 32) as u8 as char } else { c }
}

/// A text with its ASCII capitals in lower case.
pub open spec fn ascii_lower(s: Seq<char>) -> Seq<char> {
    Seq::new(s.len(), |i: int| ascii_lower_char(s[i]))
}

fn to_ascii_lower(s: &[char]) -> (r: Vec<char>)
    ensures
        r@ == ascii_lower(s@),
{
    let mut v: Vec<char> = Vec::new();
    let mut i: usize = 0;
    while i < s.len()
        invariant
            i <= s.len(),
            v@.len() == i,
            forall|k: int| 0 <= k < i ==> #[trigger] v@[k] == ascii_lower_char(s@[k]),
        decreases s.len() - i,
    {
        let c: char = s[i];
        let u: u32 = c as u32;
        if 0x41 <= u && u <= 0x5a {
            v.push((u + 32) as u8 as char);
        } else {
            v.push(c);
        }
        i += 1;
    }
    assert(v@ =~= ascii_lower(s@));
    v
}

fn same_text(a: &[char], b: &[char]) -> (r: bool)
    ensures
        r == (a@ == b@),
{
    if a.len() != b.len() {
        return false;
    }
    let r: bool = is_text_at(a, b, 0);
    assert(a@.subrange(0, a@.len() as int) =~= a@);
    r
}

/// `t` stands at the end of `s`.
pub open spec fn ends_with(s: Seq<char>, t: Seq<char>) -> bool {
    text_at(s, t, s.len() - t.len())
}

fn has_end(s: &[char], t: &[char]) -> (r: bool)
    ensures
        r == ends_with(s@, t@),
{
    if t.len() > s.len() {
        return false;
    }
    is_text_at(s, t, s.len() - t.len())
}

// ---------------------------------------------------------------------------
// Hosts, mail boxes, addresses

/// Host-based matching (URI/email): an exact host unless the base begins with a
/// period, which then matches subdomains only (not the bare domain).
pub open spec fn host_in(host: Seq<char>, base: Seq<char>) -> bool {
    let h = ascii_lower(host);
    let b = ascii_lower(base);
    if b.len() > 0 && b[0] == '.' {
        ends_with(h, b)
    } else {
        h == b
    }
}

fn host_within_chars(host: &[char], base: &[char]) -> (r: bool)
    ensures
        r == host_in(host@, base@),
{
    let h: Vec<char> = to_ascii_lower(host);
    let b: Vec<char> = to_ascii_lower(base);
    if b.len() > 0 && b[0] == '.' {
        has_end(&h, &b)
    } else {
        same_text(&h, &b)
    }
}

/// Host-based matching (URI/email): an exact host unless the base begins with a
/// period, which then matches subdomains only (not the bare domain).
pub fn host_within(host: &str, base: &str) -> (r: bool)
    ensures
        r == host_in(host@, base@),
{
    host_within_chars(&chars_of(host), &chars_of(base))
}

/// The first index that holds something else than a period.
pub open spec fn skip_periods(s: Seq<char>, i: int) -> int
    decreases s.len() - i,
{
    if 0 <= i < s.len() && s[i] == '.' {
        skip_periods(s, i + 1)
    } else {
        i
    }
}

/// A DNS name lies in a domain if it is that domain or one below it; periods at
/// the start of the base do not matter, and an empty base holds every name.
pub open spec fn dns_in(name: Seq<char>, base: Seq<char>) -> bool {
    let n = ascii_lower(name);
    let b = ascii_lower(base.skip(skip_periods(base, 0)));
    b.len() == 0 || n == b || ends_with(n, seq!['.'] + b)
}

/// A DNS name lies in a domain if it is that domain or one below it.
pub fn dns_within(name: &str, base: &str) -> (r: bool)
    ensures
        r == dns_in(name@, base@),
{
    let n: Vec<char> = to_ascii_lower(&chars_of(name));
    let whole: Vec<char> = chars_of(base);
    let mut k: usize = 0;
    while k < whole.len() && whole[k] == '.'
        invariant
            k <= whole.len(),
            skip_periods(whole@, 0) == skip_periods(whole@, k as int),
        decreases whole.len() - k,
    {
        k += 1;
    }
    let rest: Vec<char> = part(&whole, k, whole.len());
    assert(rest@ =~= base@.skip(k as int));
    let b: Vec<char> = to_ascii_lower(&rest);
    if b.len() == 0 {
        return true;
    }
    if same_text(&n, &b) {
        return true;
    }
    let mut dotted: Vec<char> = Vec::new();
    dotted.push('.');
    let mut tail: Vec<char> = part(&b, 0, b.len());
    assert(tail@ =~= b@);
    dotted.append(&mut tail);
    assert(dotted@ =~= seq!['.'] + b@);
    has_end(&n, &dotted)
}

/// A mail address lies in a base that is the address itself, or whose host part
/// holds the address's host.
pub open spec fn email_in(name: Seq<char>, base: Seq<char>) -> bool {
    let n = ascii_lower(name);
    let b = ascii_lower(base);
    if next_char(b, '@', 0) < b.len() {
        n == b
    } else {
        let at = next_char(n, '@', 0);
        at < n.len() && host_in(n.skip(at + 1), b)
    }
}

/// A mail address lies in a base that is the address itself, or whose host part
/// holds the address's host.
pub fn email_within(name: &str, base: &str) -> (r: bool)
    ensures
        r == email_in(name@, base@),
{
    let n: Vec<char> = to_ascii_lower(&chars_of(name));
    let b: Vec<char> = to_ascii_lower(&chars_of(base));
    if find_char(&b, '@', 0) < b.len() {
        return same_text(&n, &b);
    }
    let at: usize = find_char(&n, '@', 0);
    if at >= n.len() {
        return false;
    }
    let host: Vec<char> = part(&n, at + 1, n.len());
    assert(host@ =~= n@.skip(at + 1));
    host_within_chars(&host, &b)
}

/// An address lies in a network, given as address and mask one behind the other:
/// the two agree wherever the mask is set.
pub open spec fn ip_in(name: Seq<u8>, base: Seq<u8>) -> bool {
    base.len() == 2 * name.len() && forall|i: int|
        #![trigger name[i]]
        0 <= i < name.len() ==> (name[i] & base[name.len() + i]) == (base[i] & base[name.len() + i])
}

/// An address lies in a network, given as address and mask one behind the other
/// (8 bytes for IPv4, 32 for IPv6).
pub fn ip_within(name: &[u8], base: &[u8]) -> (r: bool)
    ensures
        r == ip_in(name@, base@),
{
    let n: usize = name.len();
    let total: usize = base.len();
    if n > total || total - n != n {
        return false;
    }
    let mut i: usize = 0;
    while i < n
        invariant
            n == name.len(),
            total == base.len(),
            total - n == n,
            i <= n,
            forall|k: int|
                #![trigger name@[k]]
                0 <= k < i ==> (name@[k] & base@[n + k]) == (base@[k] & base@[n + k]),
        decreases n - i,
    {
        if name[i] & base[n + i] != base[i] & base[n + i] {
            assert(name@[i as int] & base@[n + i] != base@[i as int] & base@[n + i]);
            return false;
        }
        i += 1;
    }
    true
}

/// The first index at or after `i` at which `t` stands in `s`, or the end.
pub open spec fn next_text(s: Seq<char>, t: Seq<char>, i: int) -> int
    decreases s.len() - i,
{
    if i < 0 || i >= s.len() {
        s.len() as int
    } else if text_at(s, t, i) {
        i
    } else {
        next_text(s, t, i + 1)
    }
}

fn find_text(s: &[char], t: &[char], from: usize) -> (r: usize)
    requires
        from <= s.len(),
    ensures
        r == next_text(s@, t@, from as int),
        from <= r <= s.len(),
        r < s.len() ==> text_at(s@, t@, r as int),
{
    let mut i: usize = from;
    while i < s.len()
        invariant
            from <= i <= s.len(),
            next_text(s@, t@, from as int) == next_text(s@, t@, i as int),
        decreases s.len() - i,
    {
        if is_text_at(s, t, i) {
            return i;
        }
        i += 1;
    }
    s.len()
}

/// The index behind the last `c` of a text, or zero.
pub open spec fn after_last(s: Seq<char>, c: char, n: int) -> int
    decreases n,
{
    if n <= 0 || n > s.len() {
        0
    } else if s[n - 1] == c {
        n
    } else {
        after_last(s, c, n - 1)
    }
}

/// What stands behind the scheme of a URI, up to a further scheme separator; the
/// whole of a text without a scheme.
pub open spec fn after_scheme(uri: Seq<char>) -> Seq<char> {
    let i = next_text(uri, "://"@, 0);
    if i >= uri.len() {
        uri
    } else {
        let rest = uri.skip(i + "://"@.len());
        rest.take(next_text(rest, "://"@, 0))
    }
}

/// The first index at or after `i` that ends the authority of a URI.
pub open spec fn authority_end(s: Seq<char>, i: int) -> int
    decreases s.len() - i,
{
    if 0 <= i < s.len() && s[i] != '/' && s[i] != '?' && s[i] != '#' {
        authority_end(s, i + 1)
    } else {
        i
    }
}

/// The host of a URI: its authority without user and port.
pub open spec fn host_of(uri: Seq<char>) -> Seq<char> {
    let s = after_scheme(uri);
    let authority = s.take(authority_end(s, 0));
    let host = authority.skip(after_last(authority, '@', authority.len() as int));
    host.take(next_char(host, ':', 0))
}

fn uri_host_chars(uri: &[char]) -> (r: Vec<char>)
    ensures
        r@ == host_of(uri@),
{
    let sep: Vec<char> = chars_of("://");
    let i: usize = find_text(uri, &sep, 0);
    let s: Vec<char> = if i >= uri.len() {
        let all: Vec<char> = part(uri, 0, uri.len());
        assert(all@ =~= uri@);
        all
    } else {
        let rest: Vec<char> = part(uri, i + sep.len(), uri.len());
        assert(rest@ =~= uri@.skip(i + sep@.len()));
        let e: usize = find_text(&rest, &sep, 0);
        let p: Vec<char> = part(&rest, 0, e);
        assert(p@ =~= rest@.take(e as int));
        p
    };
    assert(s@ == after_scheme(uri@));
    let mut e: usize = 0;
    while e < s.len() && s[e] != '/' && s[e] != '?' && s[e] != '#'
        invariant
            e <= s.len(),
            authority_end(s@, 0) == authority_end(s@, e as int),
        decreases s.len() - e,
    {
        e += 1;
    }
    let authority: Vec<char> = part(&s, 0, e);
    assert(authority@ =~= s@.take(e as int));
    let mut n: usize = authority.len();
    while n > 0 && authority[n - 1] != '@'
        invariant
            n <= authority.len(),
            after_last(authority@, '@', authority@.len() as int) == after_last(authority@, '@', n as int),
        decreases n,
    {
        n -= 1;
    }
    let host: Vec<char> = part(&authority, n, authority.len());
    assert(host@ =~= authority@.skip(n as int));
    let p: usize = find_char(&host, ':', 0);
    let r: Vec<char> = part(&host, 0, p);
    assert(r@ =~= host@.take(p as int));
    r
}

/// The host of a URI: its authority without user and port.
pub fn uri_host(uri: &str) -> (r: String)
    ensures
        r@ == host_of(uri@),
{
    string_of(&uri_host_chars(&chars_of(uri)))
}

// ---------------------------------------------------------------------------
// Distinguished names

/// A relative distinguished name: attribute types and values.
pub type Rdn = Seq<(Seq<u8>, Seq<u8>)>;

/// The views of the parts of a distinguished name.
pub open spec fn rdns(v: Seq<Vec<(Vec<u8>, Vec<u8>)>>) -> Seq<Rdn> {
    Seq::new(v.len(), |i: int| pairs_of(v[i]@))
}

/// Words with single spaces between them.
pub open spec fn joined(words: Seq<Seq<char>>) -> Seq<char>
    decreases words.len(),
{
    if words.len() == 0 {
        Seq::empty()
    } else {
        joined(words.drop_last()) + (if words.len() > 1 { seq![' '] } else { Seq::empty() }) + words.last()
    }
}

/// An attribute value for comparison: its words in lower case, whatever the
/// encoding of its string.
pub open spec fn folded(value: Seq<u8>) -> Seq<char> {
    lowercase(joined(words_from(lossy_text(value), 0)))
}

/// A relative distinguished name for comparison: the set of its attributes.
pub open spec fn rdn_key(rdn: Rdn) -> Set<(Seq<u8>, Seq<char>)> {
    Set::new(|x: (Seq<u8>, Seq<char>)| exists|i: int| 0 <= i < rdn.len() && #[trigger] attribute_key(rdn, i) == x)
}

/// An attribute for comparison.
pub open spec fn attribute_key(rdn: Rdn, i: int) -> (Seq<u8>, Seq<char>) {
    (rdn[i].0, folded(rdn[i].1))
}

/// A distinguished name lies in a subtree if the base is a prefix of it, part by
/// part.
pub open spec fn dn_in(name: Seq<Rdn>, base: Seq<Rdn>) -> bool {
    base.len() <= name.len() && forall|i: int|
        0 <= i < base.len() ==> #[trigger] rdn_key(base[i]) == rdn_key(name[i])
}

fn join_words(words: &Vec<Vec<char>>) -> (r: Vec<char>)
    ensures
        r@ == joined(texts(words@)),
{
    let mut out: Vec<char> = Vec::new();
    let mut i: usize = 0;
    assert(texts(words@).take(0) =~= Seq::empty());
    while i < words.len()
        invariant
            i <= words.len(),
            out@ =~= joined(texts(words@).take(i as int)),
        decreases words.len() - i,
    {
        if i > 0 {
            out.push(' ');
        }
        let mut w: Vec<char> = part(&words[i], 0, words[i].len());
        assert(w@ =~= words@[i as int]@);
        out.append(&mut w);
        proof {
            let t = texts(words@).take(i + 1);
            assert(t.drop_last() =~= texts(words@).take(i as int));
            assert(t.last() == words@[i as int]@);
        }
        i += 1;
    }
    assert(texts(words@).take(i as int) =~= texts(words@));
    out
}

fn fold(value: &[u8]) -> (r: String)
    ensures
        r@ == folded(value@),
{
    let text: String = from_utf8_lossy(value);
    let words: Vec<Vec<char>> = split_words(&chars_of(text.as_str()));
    to_lowercase(string_of(&join_words(&words)).as_str())
}

/// Each attribute of `a` occurs, folded, in `b`.
fn keys_within(a: &Vec<(Vec<u8>, Vec<u8>)>, b: &Vec<(Vec<u8>, Vec<u8>)>) -> (r: bool)
    ensures
        r == rdn_key(pairs_of(a@)).subset_of(rdn_key(pairs_of(b@))),
{
    let ghost ka = rdn_key(pairs_of(a@));
    let ghost kb = rdn_key(pairs_of(b@));
    let mut i: usize = 0;
    while i < a.len()
        invariant
            i <= a.len(),
            ka == rdn_key(pairs_of(a@)),
            kb == rdn_key(pairs_of(b@)),
            forall|k: int| 0 <= k < i ==> kb.contains(#[trigger] attribute_key(pairs_of(a@), k)),
        decreases a.len() - i,
    {
        let f: String = fold(&a[i].1);
        let ghost x = attribute_key(pairs_of(a@), i as int);
        assert(x == (a@[i as int].0@, f@));
        let mut found: bool = false;
        let mut j: usize = 0;
        while j < b.len() && !found
            invariant
                i < a.len(),
                j <= b.len(),
                x == (a@[i as int].0@, f@),
                kb == rdn_key(pairs_of(b@)),
                found ==> kb.contains(x),
                !found ==> forall|k: int| 0 <= k < j ==> #[trigger] attribute_key(pairs_of(b@), k) != x,
            decreases b.len() - j + (if found { 0int } else { 1int }),
        {
            let g: String = fold(&b[j].1);
            assert(attribute_key(pairs_of(b@), j as int) == (b@[j as int].0@, g@));
            if bytes_eq(&a[i].0, &b[j].0) && f == g {
                found = true;
            }
            j += 1;
        }
        if !found {
            assert(ka.contains(x));
            assert(!kb.contains(x));
            return false;
        }
        i += 1;
    }
    assert forall|x: (Seq<u8>, Seq<char>)| ka.contains(x) implies kb.contains(x) by {
        let k = choose|k: int| 0 <= k < pairs_of(a@).len() && #[trigger] attribute_key(pairs_of(a@), k) == x;
        assert(kb.contains(attribute_key(pairs_of(a@), k)));
    }
    true
}

/// A DN is within a base subtree if the base RDN sequence is a prefix of it,
/// comparing RDNs case-insensitively and ignoring the DirectoryString encoding
/// (PrintableString vs UTF8String) — a practical subset of RFC 5280 §7.1.
pub fn dn_within(name: &Vec<Vec<(Vec<u8>, Vec<u8>)>>, base: &Vec<Vec<(Vec<u8>, Vec<u8>)>>) -> (r: bool)
    ensures
        r == dn_in(rdns(name@), rdns(base@)),
{
    if base.len() > name.len() {
        return false;
    }
    let mut i: usize = 0;
    while i < base.len()
        invariant
            i <= base.len() <= name.len(),
            forall|k: int| 0 <= k < i ==> #[trigger] rdn_key(rdns(base@)[k]) == rdn_key(rdns(name@)[k]),
        decreases base.len() - i,
    {
        let same: bool = keys_within(&base[i], &name[i]) && keys_within(&name[i], &base[i]);
        assert(same == (rdn_key(rdns(base@)[i as int]) == rdn_key(rdns(name@)[i as int]))) by {
            let a = rdn_key(rdns(base@)[i as int]);
            let b = rdn_key(rdns(name@)[i as int]);
            assert(rdns(base@)[i as int] == pairs_of(base@[i as int]@));
            assert(rdns(name@)[i as int] == pairs_of(name@[i as int]@));
            if same {
                assert(a =~= b);
            }
        }
        if !same {
            return false;
        }
        i += 1;
    }
    true
}

// ---------------------------------------------------------------------------
// General names

/// A name that constraints can apply to.
#[derive(Debug)]
pub enum GeneralName {
    Directory(Vec<Vec<(Vec<u8>, Vec<u8>)>>),
    Dns(String),
    Email(String),
    Ip(Vec<u8>),
    Uri(String),
    /// A name of another kind, which no constraint applies to.
    Other,
}

/// A general name as a mathematical value.
pub enum NameView {
    Directory(Seq<Rdn>),
    Dns(Seq<char>),
    Email(Seq<char>),
    Ip(Seq<u8>),
    Uri(Seq<char>),
    Other,
}

impl GeneralName {
    pub open spec fn view(&self) -> NameView {
        match *self {
            GeneralName::Directory(d) => NameView::Directory(rdns(d@)),
            GeneralName::Dns(s) => NameView::Dns(s@),
            GeneralName::Email(s) => NameView::Email(s@),
            GeneralName::Ip(b) => NameView::Ip(b@),
            GeneralName::Uri(s) => NameView::Uri(s@),
            GeneralName::Other => NameView::Other,
        }
    }
}

/// The views of a list of names.
pub open spec fn name_views(v: Seq<GeneralName>) -> Seq<NameView> {
    Seq::new(v.len(), |i: int| v[i]@)
}

/// Whether `name` lies in the subtree of `base`; nothing where the two are of
/// different kinds, so that the constraint does not apply.
pub open spec fn in_subtree(name: NameView, base: NameView) -> Option<bool> {
    match (name, base) {
        (NameView::Directory(n), NameView::Directory(b)) => Some(dn_in(n, b)),
        (NameView::Dns(n), NameView::Dns(b)) => Some(dns_in(n, b)),
        (NameView::Email(n), NameView::Email(b)) => Some(email_in(n, b)),
        (NameView::Ip(n), NameView::Ip(b)) => Some(ip_in(n, b)),
        (NameView::Uri(n), NameView::Uri(b)) => Some(host_in(host_of(n), b)),
        _ => None,
    }
}

/// `Some(true/false)` when `name` and `base` are the same GeneralName type
/// (matched or not), `None` when the types differ (constraint not applicable).
pub fn within_subtree(name: &GeneralName, base: &GeneralName) -> (r: Option<bool>)
    ensures
        r == in_subtree(name@, base@),
{
    match (name, base) {
        (GeneralName::Directory(n), GeneralName::Directory(b)) => Some(dn_within(n, b)),
        (GeneralName::Dns(n), GeneralName::Dns(b)) => Some(dns_within(n.as_str(), b.as_str())),
        (GeneralName::Email(n), GeneralName::Email(b)) => Some(email_within(n.as_str(), b.as_str())),
        (GeneralName::Ip(n), GeneralName::Ip(b)) => Some(ip_within(n, b)),
        (GeneralName::Uri(n), GeneralName::Uri(b)) => {
            Some(host_within_chars(&uri_host_chars(&chars_of(n.as_str())), &chars_of(b.as_str())))
        },
        _ => None,
    }
}

/// The name constraints of a CA certificate.
#[derive(Debug)]
pub struct NameConstraints {
    pub permitted: Option<Vec<GeneralName>>,
    pub excluded: Option<Vec<GeneralName>>,
}

/// Name constraints as a mathematical value.
pub struct ConstraintsView {
    pub permitted: Option<Seq<NameView>>,
    pub excluded: Option<Seq<NameView>>,
}

impl NameConstraints {
    pub open spec fn view(&self) -> ConstraintsView {
        ConstraintsView {
            permitted: match self.permitted {
                Some(v) => Some(name_views(v@)),
                None => None,
            },
            excluded: match self.excluded {
                Some(v) => Some(name_views(v@)),
                None => None,
            },
        }
    }
}

/// The name lies in one of the subtrees.
pub open spec fn in_some(name: NameView, bases: Seq<NameView>) -> bool {
    exists|i: int| 0 <= i < bases.len() && #[trigger] in_subtree(name, bases[i]) == Some(true)
}

/// One of the subtrees is of the name's kind.
pub open spec fn constrained_by(name: NameView, bases: Seq<NameView>) -> bool {
    exists|i: int| 0 <= i < bases.len() && #[trigger] in_subtree(name, bases[i]) is Some
}

/// The name lies in an excluded subtree.
pub open spec fn excluded_by(name: NameView, nc: ConstraintsView) -> bool {
    nc.excluded matches Some(bases) && in_some(name, bases)
}

/// The name lies in a permitted subtree, or no permitted subtree is of its kind.
pub open spec fn permitted_by(name: NameView, nc: ConstraintsView) -> bool {
    nc.permitted matches Some(bases) ==> in_some(name, bases) || !constrained_by(name, bases)
}

/// Whether the name lies in a subtree of the list, and whether one is of its kind.
fn search(name: &GeneralName, bases: &Vec<GeneralName>) -> (r: (bool, bool))
    ensures
        r.0 == in_some(name@, name_views(bases@)),
        r.1 == constrained_by(name@, name_views(bases@)),
{
    let mut inside: bool = false;
    let mut kind: bool = false;
    let ghost v = name_views(bases@);
    let mut i: usize = 0;
    while i < bases.len()
        invariant
            i <= bases.len(),
            v == name_views(bases@),
            inside == (exists|k: int| 0 <= k < i && #[trigger] in_subtree(name@, v[k]) == Some(true)),
            kind == (exists|k: int| 0 <= k < i && #[trigger] in_subtree(name@, v[k]) is Some),
        decreases bases.len() - i,
    {
        let w: Option<bool> = within_subtree(name, &bases[i]);
        assert(v[i as int] == bases@[i as int]@);
        if let Some(b) = w {
            assert(in_subtree(name@, v[i as int]) is Some);
            kind = true;
            if b {
                assert(in_subtree(name@, v[i as int]) == Some(true));
                inside = true;
            }
        }
        i += 1;
    }
    (inside, kind)
}

/// The name lies in an excluded subtree.
pub fn name_excluded(name: &GeneralName, nc: &NameConstraints) -> (r: bool)
    ensures
        r == excluded_by(name@, nc@),
{
    match &nc.excluded {
        Some(bases) => search(name, bases).0,
        None => false,
    }
}

/// The name lies in a permitted subtree, or no permitted subtree is of its kind.
pub fn name_permitted(name: &GeneralName, nc: &NameConstraints) -> (r: bool)
    ensures
        r == permitted_by(name@, nc@),
{
    match &nc.permitted {
        Some(bases) => {
            let (inside, kind) = search(name, bases);
            inside || !kind
        },
        None => true,
    }
}

} // verus!
