//! PDF objects: values, dictionaries and streams.
use vstd::prelude::*;

use crate::error::{Error, ErrorView};
use crate::util::{bytes_eq, raw, to_vec, utf8};

verus! {

/// Object number and generation.
pub type ObjectId = (u32, u16);

/// How a string object is written.
#[derive(Debug, Clone, Copy, PartialEq, Eq, Structural)]
pub enum StringFormat {
    Literal,
    Hexadecimal,
}

/// A real number: the bits of its single-precision value and its shortest
/// decimal notation, which has no exponent.
#[derive(Debug, Clone)]
pub struct Real {
    pub bits: u32,
    pub text: String,
}

/// A PDF object.
#[derive(Debug)]
pub enum Object {
    Null,
    Boolean(bool),
    Integer(i64),
    Real(Real),
    Name(Vec<u8>),
    String(Vec<u8>, StringFormat),
    Array(Vec<Object>),
    Dictionary(Dictionary),
    Stream(Stream),
    Reference(ObjectId),
}

/// A dictionary: its entries in the order in which the keys first came.
#[derive(Debug)]
pub struct Dictionary {
    pub entries: Vec<(Vec<u8>, Object)>,
}

/// A stream: its dictionary and its bytes as they stand in the file.
#[derive(Debug)]
pub struct Stream {
    pub dict: Dictionary,
    pub content: Vec<u8>,
}

/// A dictionary as a mathematical value.
pub type Dict = Seq<(Seq<u8>, Obj)>;

/// A PDF object as a mathematical value.
pub enum Obj {
    Null,
    Boolean(bool),
    Integer(i64),
    Real(u32, Seq<char>),
    Name(Seq<u8>),
    String(Seq<u8>, StringFormat),
    Array(Seq<Obj>),
    Dictionary(Seq<(Seq<u8>, Obj)>),
    Stream(Seq<(Seq<u8>, Obj)>, Seq<u8>),
    Reference((u32, u16)),
}

/// The objects of an array.
pub open spec fn objs(a: Seq<Object>) -> Seq<Obj>
    decreases a,
{
    if a.len() == 0 {
        Seq::empty()
    } else {
        objs(a.drop_last()).push(a.last()@)
    }
}

/// The entries of a dictionary.
pub open spec fn pairs(a: Seq<(Vec<u8>, Object)>) -> Dict
    decreases a,
{
    if a.len() == 0 {
        Seq::empty()
    } else {
        pairs(a.drop_last()).push((a.last().0@, a.last().1@))
    }
}

impl Object {
    pub open spec fn view(&self) -> Obj
        decreases self,
    {
        match *self {
            Object::Null => Obj::Null,
            Object::Boolean(b) => Obj::Boolean(b),
            Object::Integer(i) => Obj::Integer(i),
            Object::Real(r) => Obj::Real(r.bits, r.text@),
            Object::Name(n) => Obj::Name(n@),
            Object::String(s, f) => Obj::String(s@, f),
            Object::Array(a) => Obj::Array(objs(a@)),
            Object::Dictionary(d) => Obj::Dictionary(pairs(d.entries@)),
            Object::Stream(s) => Obj::Stream(pairs(s.dict.entries@), s.content@),
            Object::Reference(id) => Obj::Reference(id),
        }
    }
}

impl Dictionary {
    pub open spec fn view(&self) -> Dict {
        pairs(self.entries@)
    }
}

/// `objs` works element by element.
pub proof fn lemma_objs(a: Seq<Object>)
    ensures
        objs(a).len() == a.len(),
        forall|i: int| 0 <= i < a.len() ==> #[trigger] objs(a)[i] == a[i]@,
    decreases a.len(),
{
    if a.len() > 0 {
        lemma_objs(a.drop_last());
    }
}

/// `pairs` works element by element.
pub proof fn lemma_pairs(a: Seq<(Vec<u8>, Object)>)
    ensures
        pairs(a).len() == a.len(),
        forall|i: int| 0 <= i < a.len() ==> (#[trigger] pairs(a)[i]).0 == a[i].0@,
        forall|i: int| 0 <= i < a.len() ==> (#[trigger] pairs(a)[i]).1 == a[i].1@,
    decreases a.len(),
{
    if a.len() > 0 {
        lemma_pairs(a.drop_last());
    }
}

// ---------------------------------------------------------------------------
// Dictionaries

/// The index of the first entry with key `k`, from index `from` on.
pub open spec fn key_index<K, V>(d: Seq<(K, V)>, k: K, from: int) -> Option<int>
    decreases d.len() - from,
{
    if from < 0 || from >= d.len() {
        None
    } else if d[from].0 == k {
        Some(from)
    } else {
        key_index(d, k, from + 1)
    }
}

/// The value under key `k`.
pub open spec fn lookup<K, V>(d: Seq<(K, V)>, k: K) -> Option<V> {
    match key_index(d, k, 0) {
        Some(i) => Some(d[i].1),
        None => None,
    }
}

/// The dictionary with `v` under key `k`: in the place of the old value where
/// there is one, otherwise at the end.
pub open spec fn put<K, V>(d: Seq<(K, V)>, k: K, v: V) -> Seq<(K, V)> {
    match key_index(d, k, 0) {
        Some(i) => d.update(i, (k, v)),
        None => d.push((k, v)),
    }
}

/// What `key_index` gives is the first index with that key.
pub proof fn lemma_key_index<K, V>(d: Seq<(K, V)>, k: K, from: int)
    requires
        0 <= from,
    ensures
        match key_index(d, k, from) {
            Some(i) => from <= i < d.len() && d[i].0 == k && (forall|j: int|
                from <= j < i ==> (#[trigger] d[j]).0 != k),
            None => forall|j: int| from <= j < d.len() ==> (#[trigger] d[j]).0 != k,
        },
    decreases d.len() - from,
{
    if from < d.len() && d[from].0 != k {
        lemma_key_index(d, k, from + 1);
    }
}

/// An index with key `k` and none before it is what `key_index` gives.
pub proof fn lemma_key_index_is<K, V>(d: Seq<(K, V)>, k: K, from: int, i: int)
    requires
        0 <= from <= i < d.len(),
        d[i].0 == k,
        forall|j: int| from <= j < i ==> (#[trigger] d[j]).0 != k,
    ensures
        key_index(d, k, from) == Some(i),
{
    lemma_key_index(d, k, from);
}

/// A value that was set is found again, and the other keys keep theirs.
pub proof fn law_put_lookup<K, V>(d: Seq<(K, V)>, k: K, v: V, other: K)
    ensures
        lookup(put(d, k, v), k) == Some(v),
        other != k ==> lookup(put(d, k, v), other) == lookup(d, other),
{
    lemma_key_index(d, k, 0);
    let e = put(d, k, v);
    match key_index(d, k, 0) {
        Some(i) => {
            lemma_key_index_is(e, k, 0, i);
        },
        None => {
            lemma_key_index_is(e, k, 0, d.len() as int);
        },
    }
    if other != k {
        lemma_key_index(d, other, 0);
        lemma_key_index(e, other, 0);
        match key_index(d, other, 0) {
            Some(i) => {
                assert(e[i].0 == other);
                assert forall|j: int| 0 <= j < i implies (#[trigger] e[j]).0 != other by {
                    assert(d[j].0 != other);
                }
                lemma_key_index_is(e, other, 0, i);
            },
            None => {
                match key_index(e, other, 0) {
                    Some(i) => {
                        if i < d.len() {
                            assert(d[i].0 != other);
                        }
                    },
                    None => {},
                }
            },
        }
    }
}

impl Dictionary {
    /// An empty dictionary.
    pub fn new() -> (r: Dictionary)
        ensures
            r@ == Seq::<(Seq<u8>, Obj)>::empty(),
    {
        Dictionary { entries: Vec::new() }
    }

    /// The index of the entry with key `key`.
    pub fn position(&self, key: &[u8]) -> (r: Option<usize>)
        ensures
            match key_index(self@, key@, 0) {
                Some(i) => r is Some && r->0 == i && 0 <= i < self.entries@.len(),
                None => r is None,
            },
    {
        let mut i: usize = 0;
        proof {
            lemma_pairs(self.entries@);
        }
        while i < self.entries.len()
            invariant
                i <= self.entries.len(),
                self@.len() == self.entries@.len(),
                forall|j: int| 0 <= j < self.entries@.len() ==> (#[trigger] self@[j]).0 == self.entries@[j].0@,
                key_index(self@, key@, 0) == key_index(self@, key@, i as int),
            decreases self.entries.len() - i,
        {
            assert(self@[i as int].0 == self.entries@[i as int].0@);
            if bytes_eq(&self.entries[i].0, key) {
                return Some(i);
            }
            i += 1;
        }
        None
    }

    /// The value under `key`.
    pub fn get(&self, key: &str) -> (r: Option<&Object>)
        ensures
            match lookup(self@, utf8(key@)) {
                Some(v) => r is Some && r->0@ == v,
                None => r is None,
            },
    {
        proof {
            lemma_pairs(self.entries@);
            lemma_key_index(self@, utf8(key@), 0);
        }
        match self.position(raw(key)) {
            Some(i) => {
                assert(self@[i as int].1 == self.entries@[i as int].1@);
                Some(&self.entries[i].1)
            },
            None => None,
        }
    }

    /// Puts `value` under `key`.
    pub fn set(&mut self, key: &str, value: Object)
        ensures
            final(self)@ == put(old(self)@, utf8(key@), value@),
    {
        let ghost before = self.entries@;
        proof {
            lemma_pairs(before);
            lemma_key_index(self@, utf8(key@), 0);
        }
        match self.position(raw(key)) {
            Some(i) => {
                let k: Vec<u8> = to_vec(raw(key));
                self.entries.set(i, (k, value));
                proof {
                    lemma_pairs(self.entries@);
                    let after = put(pairs(before), utf8(key@), value@);
                    assert forall|j: int| 0 <= j < after.len() implies pairs(self.entries@)[j] == #[trigger] after[j] by {
                        assert(pairs(self.entries@)[j].0 == after[j].0);
                        assert(pairs(self.entries@)[j].1 == after[j].1);
                    }
                    assert(self@ =~= after);
                }
            },
            None => {
                let k: Vec<u8> = to_vec(raw(key));
                self.entries.push((k, value));
                proof {
                    assert(self.entries@.drop_last() =~= before);
                }
            },
        }
    }

    /// A copy.
    pub fn copy(&self) -> (r: Dictionary)
        ensures
            r@ == self@,
        decreases self,
    {
        let mut v: Vec<(Vec<u8>, Object)> = Vec::new();
        let mut i: usize = 0;
        while i < self.entries.len()
            invariant
                i <= self.entries.len(),
                pairs(v@) == pairs(self.entries@.take(i as int)),
            decreases self.entries.len() - i,
        {
            assert(decreases_to!(*self => self.entries));
            assert(decreases_to!(self.entries@ => self.entries@[i as int]));
            assert(decreases_to!(self.entries@[i as int] => self.entries@[i as int].1));
            let c: Object = self.entries[i].1.copy();
            let ghost v0 = v@;
            v.push((self.entries[i].0.clone(), c));
            assert(v@.drop_last() =~= v0);
            assert(self.entries@.take(i + 1).drop_last() =~= self.entries@.take(i as int));
            i += 1;
        }
        assert(self.entries@.take(i as int) =~= self.entries@);
        Dictionary { entries: v }
    }
}

/// A copy of an array.
pub fn copy_array(a: &Vec<Object>) -> (r: Vec<Object>)
    ensures
        objs(r@) == objs(a@),
    decreases a,
{
    let mut v: Vec<Object> = Vec::new();
    let mut i: usize = 0;
    while i < a.len()
        invariant
            i <= a.len(),
            objs(v@) == objs(a@.take(i as int)),
        decreases a.len() - i,
    {
        assert(decreases_to!(*a => a@));
        assert(decreases_to!(a@ => a@[i as int]));
        let c: Object = a[i].copy();
        let ghost v0 = v@;
        v.push(c);
        assert(v@.drop_last() =~= v0);
        assert(a@.take(i + 1).drop_last() =~= a@.take(i as int));
        i += 1;
    }
    assert(a@.take(i as int) =~= a@);
    v
}

/// The name of an object's type.
pub open spec fn kind_name(o: Obj) -> Seq<char> {
    match o {
        Obj::Null => "Null"@,
        Obj::Boolean(_) => "Boolean"@,
        Obj::Integer(_) => "Integer"@,
        Obj::Real(_, _) => "Real"@,
        Obj::Name(_) => "Name"@,
        Obj::String(_, _) => "String"@,
        Obj::Array(_) => "Array"@,
        Obj::Dictionary(_) => "Dictionary"@,
        Obj::Stream(_, _) => "Stream"@,
        Obj::Reference(_) => "Reference"@,
    }
}

/// The error for an object that is not of the expected type.
pub open spec fn wrong_type(expected: Seq<char>, o: Obj) -> ErrorView {
    ErrorView::Pdf("object has wrong type; expected type "@ + expected + " but found type "@ + kind_name(o))
}

/// The error for a dictionary without a key that it needs.
pub open spec fn missing_key(key: Seq<char>) -> ErrorView {
    ErrorView::Pdf("missing required dictionary key \""@ + key + "\""@)
}

impl Object {
    /// A copy.
    pub fn copy(&self) -> (r: Object)
        ensures
            r@ == self@,
        decreases self,
    {
        match self {
            Object::Null => Object::Null,
            Object::Boolean(b) => Object::Boolean(*b),
            Object::Integer(i) => Object::Integer(*i),
            Object::Real(x) => Object::Real(Real { bits: x.bits, text: x.text.clone() }),
            Object::Name(n) => Object::Name(n.clone()),
            Object::String(s, f) => Object::String(s.clone(), *f),
            Object::Array(a) => {
                assert(decreases_to!(*self => self->Array_0));
                Object::Array(copy_array(a))
            },
            Object::Dictionary(d) => {
                assert(decreases_to!(*self => self->Dictionary_0));
                Object::Dictionary(d.copy())
            },
            Object::Stream(s) => {
                assert(decreases_to!(*self => self->Stream_0));
                assert(decreases_to!(*s => s.dict));
                Object::Stream(Stream { dict: s.dict.copy(), content: s.content.clone() })
            },
            Object::Reference(id) => Object::Reference(*id),
        }
    }

    /// The name of the object's type.
    pub fn kind_name(&self) -> (r: &str)
        ensures
            r@ == kind_name(self@),
    {
        match self {
            Object::Null => "Null",
            Object::Boolean(_) => "Boolean",
            Object::Integer(_) => "Integer",
            Object::Real(_) => "Real",
            Object::Name(_) => "Name",
            Object::String(_, _) => "String",
            Object::Array(_) => "Array",
            Object::Dictionary(_) => "Dictionary",
            Object::Stream(_) => "Stream",
            Object::Reference(_) => "Reference",
        }
    }

    /// The error that says that this object is not of the expected type.
    pub fn wrong_type(&self, expected: &str) -> (r: Error)
        ensures
            r@ == wrong_type(expected@, self@),
    {
        let mut t: String = "object has wrong type; expected type ".to_owned();
        t.append(expected);
        t.append(" but found type ");
        t.append(self.kind_name());
        Error::Pdf(t)
    }

    /// The object as a dictionary.
    pub fn as_dict(&self) -> (r: Result<&Dictionary, Error>)
        ensures
            match (self@, r) {
                (Obj::Dictionary(d), Ok(v)) => v@ == d && *self == Object::Dictionary(*v),
                (Obj::Dictionary(d), Err(_)) => false,
                (o, Ok(_)) => false,
                (o, Err(e)) => e@ == wrong_type("Dictionary"@, o),
            },
    {
        match self {
            Object::Dictionary(d) => Ok(d),
            _ => Err(self.wrong_type("Dictionary")),
        }
    }

    /// The object as an array.
    pub fn as_array(&self) -> (r: Result<&Vec<Object>, Error>)
        ensures
            match (self@, r) {
                (Obj::Array(a), Ok(v)) => objs(v@) == a && *self == Object::Array(*v),
                (Obj::Array(a), Err(_)) => false,
                (o, Ok(_)) => false,
                (o, Err(e)) => e@ == wrong_type("Array"@, o),
            },
    {
        match self {
            Object::Array(a) => Ok(a),
            _ => Err(self.wrong_type("Array")),
        }
    }

    /// The object as a reference.
    pub fn as_reference(&self) -> (r: Result<ObjectId, Error>)
        ensures
            match (self@, r) {
                (Obj::Reference(id), Ok(v)) => v == id,
                (Obj::Reference(id), Err(_)) => false,
                (o, Ok(_)) => false,
                (o, Err(e)) => e@ == wrong_type("Reference"@, o),
            },
    {
        match self {
            Object::Reference(id) => Ok(*id),
            _ => Err(self.wrong_type("Reference")),
        }
    }
}

/// The error for a dictionary without the key `key`.
pub fn missing_key_error(key: &str) -> (r: Error)
    ensures
        r@ == missing_key(key@),
{
    let mut t: String = "missing required dictionary key \"".to_owned();
    t.append(key);
    t.append("\"");
    Error::Pdf(t)
}

} // verus!
