//! The ordered document map: string keys to values, insertion order kept,
//! keys unique.

use crate::text::str_eq;
use crate::value::{BinarySubtype, MValue, model_entries, UTCDateTime, Value};
use crate::object_id::ObjectId;
use vstd::pervasive::VecAdditionalExecFns;
use vstd::prelude::*;

verus! {

/// What a typed lookup can report.
#[derive(Debug, Clone, Copy, PartialEq, Eq, Structural)]
pub enum Error {
    NotPresent,
    UnexpectedType,
}

/// An ordered mapping from string keys to values.
#[derive(Debug, PartialEq)]
pub struct Document {
    pub(crate) entries: Vec<(String, Value)>,
}

/// The position of the first entry with the given key, or the length when
/// no entry has it.
pub open spec fn key_index(es: Seq<(String, Value)>, k: Seq<char>) -> int
    decreases es.len(),
{
    if es.len() == 0 {
        0
    } else if es[0].0@ == k {
        0
    } else {
        1 + key_index(es.drop_first(), k)
    }
}

/// Whether some entry has the given key.
pub open spec fn has_key(es: Seq<(String, Value)>, k: Seq<char>) -> bool {
    key_index(es, k) < es.len()
}

/// Whether every key appears once.
pub open spec fn keys_unique(es: Seq<(String, Value)>) -> bool {
    forall|i: int, j: int| 0 <= i < j < es.len() ==> es[i].0@ != es[j].0@
}

/// What the first-match position means.
pub proof fn lemma_key_index(es: Seq<(String, Value)>, k: Seq<char>)
    ensures
        0 <= key_index(es, k) <= es.len(),
        forall|j: int| 0 <= j < key_index(es, k) ==> es[j].0@ != k,
        key_index(es, k) < es.len() ==> es[key_index(es, k)].0@ == k,
    decreases es.len(),
{
    if es.len() > 0 && es[0].0@ != k {
        lemma_key_index(es.drop_first(), k);
        assert forall|j: int| 0 <= j < key_index(es, k) implies es[j].0@ != k by {
            if j > 0 {
                assert(es.drop_first()[j - 1] == es[j]);
            }
        }
        if key_index(es, k) < es.len() {
            assert(es.drop_first()[key_index(es.drop_first(), k)] == es[key_index(es, k)]);
        }
    }
}

/// The position of the first entry with the given key in a model document.
pub open spec fn m_key_index(es: Seq<(Seq<char>, MValue)>, k: Seq<char>) -> int
    decreases es.len(),
{
    if es.len() == 0 {
        0
    } else if es[0].0 == k {
        0
    } else {
        1 + m_key_index(es.drop_first(), k)
    }
}

/// Whether some entry of a model document has the given key.
pub open spec fn m_has_key(es: Seq<(Seq<char>, MValue)>, k: Seq<char>) -> bool {
    m_key_index(es, k) < es.len()
}

/// Inserting into a model document: an existing key keeps its position and
/// takes the new value; a new key goes to the end.
pub open spec fn m_insert(es: Seq<(Seq<char>, MValue)>, k: Seq<char>, v: MValue) -> Seq<
    (Seq<char>, MValue),
> {
    if m_has_key(es, k) {
        es.update(m_key_index(es, k), (k, v))
    } else {
        es.push((k, v))
    }
}

/// What the first-match position in a model document means.
pub proof fn lemma_m_key_index(es: Seq<(Seq<char>, MValue)>, k: Seq<char>)
    ensures
        0 <= m_key_index(es, k) <= es.len(),
        forall|j: int| 0 <= j < m_key_index(es, k) ==> es[j].0 != k,
        m_key_index(es, k) < es.len() ==> es[m_key_index(es, k)].0 == k,
    decreases es.len(),
{
    if es.len() > 0 && es[0].0 != k {
        lemma_m_key_index(es.drop_first(), k);
        assert forall|j: int| 0 <= j < m_key_index(es, k) implies es[j].0 != k by {
            if j > 0 {
                assert(es.drop_first()[j - 1] == es[j]);
            }
        }
        if m_key_index(es, k) < es.len() {
            assert(es.drop_first()[m_key_index(es.drop_first(), k)] == es[m_key_index(es, k)]);
        }
    }
}

/// The raw first-match position and the model one agree.
pub proof fn lemma_key_index_model(es: Seq<(String, Value)>, k: Seq<char>)
    ensures
        key_index(es, k) == m_key_index(model_entries(es), k),
        model_entries(es).len() == es.len(),
    decreases es.len(),
{
    crate::value::lemma_model_entries_len(es);
    if es.len() > 0 {
        crate::value::lemma_model_entries_index(es, 0);
        assert(model_entries(es)[0].0 == es[0].0@);
        if es[0].0@ != k {
            lemma_key_index_model(es.drop_first(), k);
            assert(model_entries(es).drop_first() =~= model_entries(es.drop_first())) by {
                crate::value::lemma_model_entries_len(es.drop_first());
                assert forall|i: int|
                    0 <= i < es.len() - 1 implies model_entries(es).drop_first()[i]
                    == model_entries(es.drop_first())[i] by {
                    crate::value::lemma_model_entries_index(es, i + 1);
                    crate::value::lemma_model_entries_index(es.drop_first(), i);
                    assert(es.drop_first()[i] == es[i + 1]);
                }
            }
        }
    }
}

/// Inserting a run of entries into a model document, first entry first.
pub open spec fn m_insert_all(
    es: Seq<(Seq<char>, MValue)>,
    other: Seq<(Seq<char>, MValue)>,
) -> Seq<(Seq<char>, MValue)>
    decreases other.len(),
{
    if other.len() == 0 {
        es
    } else {
        m_insert_all(m_insert(es, other[0].0, other[0].1), other.drop_first())
    }
}

/// What `insert_value` does to a document, read at the model level.
pub proof fn lemma_insert_model(es: Seq<(String, Value)>, k: String, v: Value)
    ensures
        has_key(es, k@) ==> model_entries(es.update(key_index(es, k@), (k, v))) == m_insert(
            model_entries(es),
            k@,
            v.model(),
        ),
        !has_key(es, k@) ==> model_entries(es.push((k, v))) == m_insert(
            model_entries(es),
            k@,
            v.model(),
        ),
{
    lemma_key_index(es, k@);
    lemma_key_index_model(es, k@);
    if has_key(es, k@) {
        crate::value::lemma_model_entries_update(es, key_index(es, k@), k, v);
    } else {
        crate::value::lemma_model_entries_push(es, k, v);
    }
}

impl Document {
    /// The raw entries: keys and values in insertion order.
    pub open(crate) spec fn entries_spec(&self) -> Seq<(String, Value)> {
        self.entries@
    }

    /// The mathematical model: key text and value models in order.
    pub open(crate) spec fn model(&self) -> Seq<(Seq<char>, MValue)> {
        model_entries(self.entries@)
    }

    /// An empty document.
    pub fn new() -> (d: Document)
        ensures
            d.entries_spec() == Seq::<(String, Value)>::empty(),
    {
        Document { entries: Vec::new() }
    }

    /// An empty document with room reserved for `n` entries.
    pub fn with_capacity(n: usize) -> (d: Document)
        ensures
            d.entries_spec() == Seq::<(String, Value)>::empty(),
    {
        Document { entries: Vec::with_capacity(n) }
    }

    /// Removes every entry.
    pub fn clear(&mut self)
        ensures
            final(self).entries_spec() == Seq::<(String, Value)>::empty(),
    {
        self.entries.clear();
    }

    /// How many entries the document holds.
    pub fn len(&self) -> (r: usize)
        ensures
            r == self.entries_spec().len(),
    {
        self.entries.len()
    }

    /// Whether the document holds no entry.
    pub fn is_empty(&self) -> (r: bool)
        ensures
            r == (self.entries_spec().len() == 0),
    {
        self.entries.is_empty()
    }

    /// The position of a key, if present.
    fn find(&self, key: &str) -> (r: Option<usize>)
        ensures
            match r {
                Some(i) => has_key(self.entries_spec(), key@) && i == key_index(
                    self.entries_spec(),
                    key@,
                ),
                None => !has_key(self.entries_spec(), key@),
            },
    {
        let n = self.entries.len();
        let mut i: usize = 0;
        while i < n
            invariant
                i <= n,
                n == self.entries_spec().len(),
                forall|j: int| 0 <= j < i ==> self.entries_spec()[j].0@ != key@,
            decreases n - i,
        {
            if str_eq(self.entries[i].0.as_str(), key) {
                proof {
                    lemma_key_index(self.entries_spec(), key@);
                }
                return Some(i);
            }
            i += 1;
        }
        proof {
            lemma_key_index(self.entries_spec(), key@);
        }
        None
    }

    /// Whether the document has an entry with the given key.
    pub fn contains_key(&self, key: &str) -> (r: bool)
        ensures
            r == has_key(self.entries_spec(), key@),
    {
        self.find(key).is_some()
    }

    /// The value under a key, if present.
    pub fn get(&self, key: &str) -> (r: Option<&Value>)
        ensures
            match r {
                Some(v) => has_key(self.entries_spec(), key@) && *v == self.entries_spec()[
                    key_index(self.entries_spec(), key@)
                ].1,
                None => !has_key(self.entries_spec(), key@),
            },
    {
        match self.find(key) {
            Some(i) => {
                let p = &self.entries[i];
                Some(&p.1)
            },
            None => None,
        }
    }

    /// The position, stored key and value under a key, if present.
    pub fn get_full(&self, key: &str) -> (r: Option<(usize, &String, &Value)>)
        ensures
            match r {
                Some((i, k, v)) => {
                    &&& has_key(self.entries_spec(), key@)
                    &&& i == key_index(self.entries_spec(), key@)
                    &&& *k == self.entries_spec()[i as int].0
                    &&& *v == self.entries_spec()[i as int].1
                },
                None => !has_key(self.entries_spec(), key@),
            },
    {
        match self.find(key) {
            Some(i) => {
                let p = &self.entries[i];
                Some((i, &p.0, &p.1))
            },
            None => None,
        }
    }

    /// Inserts a value under a key. An existing key keeps its position and
    /// the old value comes back; a new key goes to the end.
    pub fn insert_value(&mut self, key: String, value: Value) -> (r: Option<Value>)
        ensures
            ({
                let es = old(self).entries_spec();
                if has_key(es, key@) {
                    &&& final(self).entries_spec() == es.update(key_index(es, key@), (key, value))
                    &&& r == Some(es[key_index(es, key@)].1)
                } else {
                    &&& final(self).entries_spec() == es.push((key, value))
                    &&& r is None
                }
            }),
    {
        match self.find(key.as_str()) {
            Some(i) => {
                let mut pair = (key, value);
                self.entries.set_and_swap(i, &mut pair);
                let (_k, v) = pair;
                Some(v)
            },
            None => {
                self.entries.push((key, value));
                None
            },
        }
    }

    /// Inserts a value under a key and reports the entry's position.
    pub fn insert_value_full(&mut self, key: String, value: Value) -> (r: (usize, Option<Value>))
        ensures
            ({
                let es = old(self).entries_spec();
                if has_key(es, key@) {
                    &&& final(self).entries_spec() == es.update(key_index(es, key@), (key, value))
                    &&& r.0 == key_index(es, key@)
                    &&& r.1 == Some(es[key_index(es, key@)].1)
                } else {
                    &&& final(self).entries_spec() == es.push((key, value))
                    &&& r.0 == es.len()
                    &&& r.1 is None
                }
            }),
    {
        match self.find(key.as_str()) {
            Some(i) => {
                let mut pair = (key, value);
                self.entries.set_and_swap(i, &mut pair);
                let (_k, v) = pair;
                (i, Some(v))
            },
            None => {
                let i = self.entries.len();
                self.entries.push((key, value));
                (i, None)
            },
        }
    }

    /// Inserts a value under a key; see `insert_value`.
    pub fn insert(&mut self, key: &str, value: Value) -> (r: Option<Value>)
        ensures
            ({
                let es = old(self).entries_spec();
                if has_key(es, key@) {
                    &&& final(self).entries_spec().len() == es.len()
                    &&& final(self).entries_spec()[key_index(es, key@)].0@ == key@
                    &&& final(self).entries_spec()[key_index(es, key@)].1 == value
                    &&& forall|j: int|
                        0 <= j < es.len() && j != key_index(es, key@)
                            ==> #[trigger] final(self).entries_spec()[j] == es[j]
                    &&& r == Some(es[key_index(es, key@)].1)
                } else {
                    &&& final(self).entries_spec().len() == es.len() + 1
                    &&& final(self).entries_spec()[es.len() as int].0@ == key@
                    &&& final(self).entries_spec()[es.len() as int].1 == value
                    &&& forall|j: int|
                        0 <= j < es.len() ==> #[trigger] final(self).entries_spec()[j] == es[j]
                    &&& r is None
                }
            }),
    {
        let owned: String = key.to_owned();
        let r = self.insert_value(owned, value);
        proof {
            let es = old(self).entries_spec();
            if has_key(es, key@) {
                lemma_key_index(es, key@);
            }
        }
        r
    }

    /// Inserts a value under a key and reports the entry's position; see
    /// `insert_value_full`.
    pub fn insert_full(&mut self, key: &str, value: Value) -> (r: (usize, Option<Value>))
        ensures
            ({
                let es = old(self).entries_spec();
                if has_key(es, key@) {
                    r.0 == key_index(es, key@) && r.1 == Some(es[key_index(es, key@)].1)
                } else {
                    r.0 == es.len() && r.1 is None
                }
            }),
    {
        let owned: String = key.to_owned();
        self.insert_value_full(owned, value)
    }

    /// Removes the entry under a key; the entries after it close the gap in
    /// order.
    pub fn remove(&mut self, key: &str) -> (r: Option<Value>)
        ensures
            ({
                let es = old(self).entries_spec();
                if has_key(es, key@) {
                    &&& r == Some(es[key_index(es, key@)].1)
                    &&& final(self).entries_spec() == es.remove(key_index(es, key@))
                } else {
                    &&& r is None
                    &&& final(self).entries_spec() == es
                }
            }),
    {
        match self.find(key) {
            Some(i) => {
                let (_k, v) = self.entries.remove(i);
                Some(v)
            },
            None => None,
        }
    }

    /// Removes the entry under a key by moving the last entry into its
    /// place.
    pub fn swap_remove(&mut self, key: &str) -> (r: Option<Value>)
        ensures
            ({
                let es = old(self).entries_spec();
                if has_key(es, key@) {
                    &&& r == Some(es[key_index(es, key@)].1)
                    &&& final(self).entries_spec() == es.update(
                        key_index(es, key@),
                        es.last(),
                    ).drop_last()
                } else {
                    &&& r is None
                    &&& final(self).entries_spec() == es
                }
            }),
    {
        match self.find(key) {
            Some(i) => {
                let (_k, v) = self.entries.swap_remove(i);
                Some(v)
            },
            None => None,
        }
    }

    /// Removes the entry under a key as `swap_remove` does, and reports its
    /// position and stored key as well.
    pub fn swap_remove_full(&mut self, key: &str) -> (r: Option<(usize, String, Value)>)
        ensures
            ({
                let es = old(self).entries_spec();
                if has_key(es, key@) {
                    &&& r matches Some((i, k, v)) && i == key_index(es, key@) && k == es[
                        key_index(es, key@)
                    ].0 && v == es[key_index(es, key@)].1
                    &&& final(self).entries_spec() == es.update(
                        key_index(es, key@),
                        es.last(),
                    ).drop_last()
                } else {
                    &&& r is None
                    &&& final(self).entries_spec() == es
                }
            }),
    {
        match self.find(key) {
            Some(i) => {
                let (k, v) = self.entries.swap_remove(i);
                Some((i, k, v))
            },
            None => None,
        }
    }

    /// Removes and returns the last entry, if any.
    pub fn pop(&mut self) -> (r: Option<(String, Value)>)
        ensures
            ({
                let es = old(self).entries_spec();
                if es.len() > 0 {
                    r == Some(es.last()) && final(self).entries_spec() == es.drop_last()
                } else {
                    r is None && final(self).entries_spec() == es
                }
            }),
    {
        let r = self.entries.pop();
        proof {
            if old(self).entries_spec().len() > 0 {
                assert(final(self).entries_spec() =~= old(self).entries_spec().drop_last());
            }
        }
        r
    }

    /// The entry at a position, if any.
    pub fn get_index(&self, index: usize) -> (r: Option<(&String, &Value)>)
        ensures
            index < self.entries_spec().len() ==> (r matches Some((k, v)) && *k
                == self.entries_spec()[index as int].0 && *v == self.entries_spec()[
                index as int
            ].1),
            index >= self.entries_spec().len() ==> r is None,
    {
        if index < self.entries.len() {
            let p = &self.entries[index];
            Some((&p.0, &p.1))
        } else {
            None
        }
    }

    /// Removes the entry at a position by moving the last entry into its
    /// place.
    pub fn swap_remove_index(&mut self, index: usize) -> (r: Option<(String, Value)>)
        ensures
            ({
                let es = old(self).entries_spec();
                if index < es.len() {
                    r == Some(es[index as int]) && final(self).entries_spec() == es.update(
                        index as int,
                        es.last(),
                    ).drop_last()
                } else {
                    r is None && final(self).entries_spec() == es
                }
            }),
    {
        if index < self.entries.len() {
            Some(self.entries.swap_remove(index))
        } else {
            None
        }
    }

    /// The bit pattern of the number under a key that holds a `Double`.
    pub fn get_f64(&self, key: &str) -> (r: Result<u64, Error>)
        ensures
            ({
                let es = self.entries_spec();
                if has_key(es, key@) {
                    match es[key_index(es, key@)].1 {
                        Value::Double(bits) => r == Ok::<u64, Error>(bits),
                        _ => r == Err::<u64, Error>(Error::UnexpectedType),
                    }
                } else {
                    r == Err::<u64, Error>(Error::NotPresent)
                }
            }),
    {
        match self.get(key) {
            Some(v) => match v {
                Value::Double(bits) => Ok(*bits),
                _ => Err(Error::UnexpectedType),
            },
            None => Err(Error::NotPresent),
        }
    }

    /// The number under a key that holds an `Int32`.
    pub fn get_i32(&self, key: &str) -> (r: Result<i32, Error>)
        ensures
            ({
                let es = self.entries_spec();
                if has_key(es, key@) {
                    match es[key_index(es, key@)].1 {
                        Value::Int32(v) => r == Ok::<i32, Error>(v),
                        _ => r == Err::<i32, Error>(Error::UnexpectedType),
                    }
                } else {
                    r == Err::<i32, Error>(Error::NotPresent)
                }
            }),
    {
        match self.get(key) {
            Some(v) => match v {
                Value::Int32(x) => Ok(*x),
                _ => Err(Error::UnexpectedType),
            },
            None => Err(Error::NotPresent),
        }
    }

    /// The number under a key that holds an `Int64`.
    pub fn get_i64(&self, key: &str) -> (r: Result<i64, Error>)
        ensures
            ({
                let es = self.entries_spec();
                if has_key(es, key@) {
                    match es[key_index(es, key@)].1 {
                        Value::Int64(v) => r == Ok::<i64, Error>(v),
                        _ => r == Err::<i64, Error>(Error::UnexpectedType),
                    }
                } else {
                    r == Err::<i64, Error>(Error::NotPresent)
                }
            }),
    {
        match self.get(key) {
            Some(v) => match v {
                Value::Int64(x) => Ok(*x),
                _ => Err(Error::UnexpectedType),
            },
            None => Err(Error::NotPresent),
        }
    }

    /// The text under a key that holds a `String`.
    pub fn get_str(&self, key: &str) -> (r: Result<&str, Error>)
        ensures
            ({
                let es = self.entries_spec();
                if has_key(es, key@) {
                    match es[key_index(es, key@)].1 {
                        Value::String(s) => r matches Ok(t) && t@ == s@,
                        _ => r == Err::<&str, Error>(Error::UnexpectedType),
                    }
                } else {
                    r == Err::<&str, Error>(Error::NotPresent)
                }
            }),
    {
        match self.get(key) {
            Some(v) => match v {
                Value::String(s) => Ok(s.as_str()),
                _ => Err(Error::UnexpectedType),
            },
            None => Err(Error::NotPresent),
        }
    }

    /// The array under a key that holds an `Array`.
    pub fn get_array(&self, key: &str) -> (r: Result<&crate::value::Array, Error>)
        ensures
            ({
                let es = self.entries_spec();
                if has_key(es, key@) {
                    match es[key_index(es, key@)].1 {
                        Value::Array(a) => r matches Ok(x) && *x == a,
                        _ => r == Err::<&crate::value::Array, Error>(Error::UnexpectedType),
                    }
                } else {
                    r == Err::<&crate::value::Array, Error>(Error::NotPresent)
                }
            }),
    {
        match self.get(key) {
            Some(v) => match v {
                Value::Array(a) => Ok(a),
                _ => Err(Error::UnexpectedType),
            },
            None => Err(Error::NotPresent),
        }
    }

    /// The document under a key that holds a `Document`.
    pub fn get_document(&self, key: &str) -> (r: Result<&Document, Error>)
        ensures
            ({
                let es = self.entries_spec();
                if has_key(es, key@) {
                    match es[key_index(es, key@)].1 {
                        Value::Document(d) => r matches Ok(x) && *x == d,
                        _ => r == Err::<&Document, Error>(Error::UnexpectedType),
                    }
                } else {
                    r == Err::<&Document, Error>(Error::NotPresent)
                }
            }),
    {
        match self.get(key) {
            Some(v) => match v {
                Value::Document(d) => Ok(d),
                _ => Err(Error::UnexpectedType),
            },
            None => Err(Error::NotPresent),
        }
    }

    /// The truth value under a key that holds a `Boolean`.
    pub fn get_bool(&self, key: &str) -> (r: Result<bool, Error>)
        ensures
            ({
                let es = self.entries_spec();
                if has_key(es, key@) {
                    match es[key_index(es, key@)].1 {
                        Value::Boolean(b) => r == Ok::<bool, Error>(b),
                        _ => r == Err::<bool, Error>(Error::UnexpectedType),
                    }
                } else {
                    r == Err::<bool, Error>(Error::NotPresent)
                }
            }),
    {
        match self.get(key) {
            Some(v) => match v {
                Value::Boolean(b) => Ok(*b),
                _ => Err(Error::UnexpectedType),
            },
            None => Err(Error::NotPresent),
        }
    }

    /// Whether the key is present and holds `Null`.
    pub fn is_null(&self, key: &str) -> (r: bool)
        ensures
            ({
                let es = self.entries_spec();
                r == (has_key(es, key@) && es[key_index(es, key@)].1 is Null)
            }),
    {
        match self.get(key) {
            Some(v) => match v {
                Value::Null => true,
                _ => false,
            },
            None => false,
        }
    }

    /// The bytes under a key that holds a `Binary` of the generic subtype;
    /// any other subtype is rejected.
    pub fn get_binary(&self, key: &str) -> (r: Result<&Vec<u8>, Error>)
        ensures
            ({
                let es = self.entries_spec();
                if has_key(es, key@) {
                    match es[key_index(es, key@)].1 {
                        Value::Binary(t, data) => if t == BinarySubtype::Generic {
                            r matches Ok(v) && v@ == data@
                        } else {
                            r == Err::<&Vec<u8>, Error>(Error::UnexpectedType)
                        },
                        _ => r == Err::<&Vec<u8>, Error>(Error::UnexpectedType),
                    }
                } else {
                    r == Err::<&Vec<u8>, Error>(Error::NotPresent)
                }
            }),
    {
        match self.get(key) {
            Some(v) => match v {
                Value::Binary(BinarySubtype::Generic, data) => Ok(data),
                _ => Err(Error::UnexpectedType),
            },
            None => Err(Error::NotPresent),
        }
    }

    /// The identifier under a key that holds an `ObjectId`.
    pub fn get_object_id(&self, key: &str) -> (r: Result<&ObjectId, Error>)
        ensures
            ({
                let es = self.entries_spec();
                if has_key(es, key@) {
                    match es[key_index(es, key@)].1 {
                        Value::ObjectId(oid) => r matches Ok(x) && *x == oid,
                        _ => r == Err::<&ObjectId, Error>(Error::UnexpectedType),
                    }
                } else {
                    r == Err::<&ObjectId, Error>(Error::NotPresent)
                }
            }),
    {
        match self.get(key) {
            Some(v) => match v {
                Value::ObjectId(oid) => Ok(oid),
                _ => Err(Error::UnexpectedType),
            },
            None => Err(Error::NotPresent),
        }
    }

    /// The packed 64-bit value under a key that holds a `TimeStamp`.
    pub fn get_time_stamp(&self, key: &str) -> (r: Result<i64, Error>)
        ensures
            ({
                let es = self.entries_spec();
                if has_key(es, key@) {
                    match es[key_index(es, key@)].1 {
                        Value::TimeStamp(v) => r == Ok::<i64, Error>(v),
                        _ => r == Err::<i64, Error>(Error::UnexpectedType),
                    }
                } else {
                    r == Err::<i64, Error>(Error::NotPresent)
                }
            }),
    {
        match self.get(key) {
            Some(v) => match v {
                Value::TimeStamp(x) => Ok(*x),
                _ => Err(Error::UnexpectedType),
            },
            None => Err(Error::NotPresent),
        }
    }

    /// The instant under a key that holds a `UTCDatetime`.
    pub fn get_utc_datetime(&self, key: &str) -> (r: Result<&UTCDateTime, Error>)
        ensures
            ({
                let es = self.entries_spec();
                if has_key(es, key@) {
                    match es[key_index(es, key@)].1 {
                        Value::UTCDatetime(dt) => r matches Ok(x) && *x == dt,
                        _ => r == Err::<&UTCDateTime, Error>(Error::UnexpectedType),
                    }
                } else {
                    r == Err::<&UTCDateTime, Error>(Error::NotPresent)
                }
            }),
    {
        match self.get(key) {
            Some(v) => match v {
                Value::UTCDatetime(dt) => Ok(dt),
                _ => Err(Error::UnexpectedType),
            },
            None => Err(Error::NotPresent),
        }
    }

    /// The entries, owned, in insertion order.
    pub fn into_entries(self) -> (r: Vec<(String, Value)>)
        ensures
            r@ == self.entries_spec(),
    {
        self.entries
    }

    /// Moves every entry of another document into this one, entry by entry,
    /// with `insert_value` semantics.
    pub fn extend(&mut self, other: Document)
        ensures
            final(self).model() == m_insert_all(old(self).model(), other.model()),
    {
        let ghost target = m_insert_all(old(self).model(), other.model());
        let mut rest = other.entries;
        let n = rest.len();
        let mut i: usize = 0;
        while i < n
            invariant
                i <= n,
                n == rest@.len() + i,
                target == m_insert_all(self.model(), model_entries(rest@)),
            decreases n - i,
        {
            let ghost rest0 = rest@;
            let ghost selfes = self.entries_spec();
            proof {
                crate::value::lemma_model_entries_index(rest0, 0);
                crate::value::lemma_model_entries_drop(rest0);
                crate::value::lemma_model_entries_len(rest0);
            }
            let (k, v) = rest.remove(0);
            proof {
                lemma_insert_model(selfes, k, v);
                lemma_key_index(selfes, k@);
            }
            self.insert_value(k, v);
            i += 1;
        }
        proof {
            crate::value::lemma_model_entries_len(rest@);
        }
    }
}

impl Document {
    /// Encodes this document to bytes: length prefix, elements in order, a
    /// zero byte.
    pub fn to_vec(&self) -> (r: Result<Vec<u8>, crate::encode::EncodeError>)
        requires
            crate::encode::enc_ok(MValue::Document(self.model())),
        ensures
            r matches Ok(v) && v@ == crate::encode::ser_doc(self.model()),
    {
        crate::encode::encode_document(self)
    }

    /// Encodes this document to bytes; the same bytes as `to_vec`.
    pub fn encode(&self) -> (r: Result<Vec<u8>, crate::encode::EncodeError>)
        requires
            crate::encode::enc_ok(MValue::Document(self.model())),
        ensures
            r matches Ok(v) && v@ == crate::encode::ser_doc(self.model()),
    {
        crate::encode::encode_document(self)
    }

    /// Decodes one document from the front of a byte slice.
    pub fn from_slice(bytes: &[u8]) -> (r: Result<Document, crate::decode::DecodeError>)
        ensures
            match r {
                Ok(d) => (crate::decode::parse_doc(bytes@, 0) matches Ok((m, q)) && d.model()
                    == m),
                Err(e) => (crate::decode::parse_doc(bytes@, 0) matches Err(k)
                    && crate::decode::err_model(e) == Some(k)),
            },
    {
        crate::decode::decode_document(bytes)
    }

    /// Decodes one document from the front of a byte slice; the same
    /// reading as `from_slice`.
    pub fn decode(bytes: &[u8]) -> (r: Result<Document, crate::decode::DecodeError>)
        ensures
            match r {
                Ok(d) => (crate::decode::parse_doc(bytes@, 0) matches Ok((m, q)) && d.model()
                    == m),
                Err(e) => (crate::decode::parse_doc(bytes@, 0) matches Err(k)
                    && crate::decode::err_model(e) == Some(k)),
            },
    {
        crate::decode::decode_document(bytes)
    }
}

impl Clone for Document {
    /// A copy with the same model.
    fn clone(&self) -> (r: Document)
        ensures
            r.model() == self.model(),
    {
        crate::value::clone_document(self)
    }
}

impl Default for Document {
    /// An empty document.
    fn default() -> (d: Document)
        ensures
            d.entries_spec() == Seq::<(String, Value)>::empty(),
    {
        Document::new()
    }
}

} // verus!
