//! The manifest model: a table of keys to values, as a TOML document holds it.
use vstd::prelude::*;

verus! {

/// A value of a document.
///
/// Floats and dates are not read by anything here; they are kept as the text
/// that stands for them in the document.
#[derive(Debug)]
pub enum Value {
    Str(String),
    Int(i64),
    Float(String),
    Bool(bool),
    Datetime(String),
    Array(Vec<Value>),
    Table(Table),
}

/// A table: its entries in document order. Keys are unique (`wf`).
#[derive(Debug)]
pub struct Table {
    pub entries: Vec<(String, Value)>,
}

/// Why a key of a table could not be read as the shape that was asked for.
#[derive(Clone, Copy, Debug, PartialEq, Eq)]
pub enum ShapeError {
    /// The key is absent.
    Missing,
    /// The key is present with a value of another shape.
    WrongType,
}

/// Whether some entry has the key `k`.
pub open spec fn has_key(es: Seq<(String, Value)>, k: Seq<char>) -> bool {
    exists|i: int| 0 <= i < es.len() && (#[trigger] es[i]).0@ == k
}

/// No two entries share a key.
pub open spec fn keys_unique(es: Seq<(String, Value)>) -> bool {
    forall|i: int, j: int|
        0 <= i < es.len() && 0 <= j < es.len() && (#[trigger] es[i]).0@ == (#[trigger] es[j]).0@
            ==> i == j
}

/// Whether entry `i` is the last one under its key.
pub open spec fn is_last_of_key(es: Seq<(String, Value)>, i: int) -> bool {
    &&& 0 <= i < es.len()
    &&& forall|j: int| i < j < es.len() ==> (#[trigger] es[j]).0@ != es[i].0@
}

/// The entries as a map from key to value.
pub open spec fn entries_map(es: Seq<(String, Value)>) -> Map<Seq<char>, Value>
    decreases es.len(),
{
    if es.len() == 0 {
        Map::empty()
    } else {
        entries_map(es.drop_last()).insert(es.last().0@, es.last().1)
    }
}

/// The keys of a map of entries are the keys of the entries, and
/// the last entry under a key gives its value.
pub proof fn lemma_entries_map(es: Seq<(String, Value)>)
    ensures
        forall|k: Seq<char>| #[trigger] entries_map(es).contains_key(k) <==> has_key(es, k),
        forall|i: int| #[trigger] is_last_of_key(es, i) ==> entries_map(es)[es[i].0@] == es[i].1,
    decreases es.len(),
{
    if es.len() > 0 {
        let init = es.drop_last();
        lemma_entries_map(init);
        assert(entries_map(es) == entries_map(init).insert(es.last().0@, es.last().1));
        assert(es[es.len() - 1] == es.last());
        assert forall|k: Seq<char>| #[trigger] entries_map(es).contains_key(k) <==> has_key(es, k) by {
            if has_key(es, k) {
                let i = choose|i: int| 0 <= i < es.len() && (#[trigger] es[i]).0@ == k;
                if i < es.len() - 1 {
                    assert(init[i] == es[i]);
                    assert(has_key(init, k));
                }
            }
            if has_key(init, k) {
                let i = choose|i: int| 0 <= i < init.len() && (#[trigger] init[i]).0@ == k;
                assert(es[i] == init[i]);
            }
        }
        assert forall|i: int| #[trigger] is_last_of_key(es, i) implies entries_map(es)[es[i].0@]
            == es[i].1 by {
            if i < es.len() - 1 {
                assert(init[i] == es[i]);
                assert(es[i].0@ != es[es.len() - 1].0@);
                assert forall|j: int| i < j < init.len() implies (#[trigger] init[j]).0@ != init[i].0@ by {
                    assert(init[j] == es[j]);
                }
                assert(is_last_of_key(init, i));
            }
        }
    }
}

/// Replacing the value of the last entry under a key, under the same key,
/// replaces it in the map; unique keys stay unique.
pub proof fn lemma_entries_map_update(es: Seq<(String, Value)>, i: int, e: (String, Value))
    requires
        is_last_of_key(es, i),
        e.0@ == es[i].0@,
    ensures
        keys_unique(es) ==> keys_unique(es.update(i, e)),
        entries_map(es.update(i, e)) == entries_map(es).insert(e.0@, e.1),
{
    let us = es.update(i, e);
    if keys_unique(es) {
        assert forall|a: int, b: int|
            0 <= a < us.len() && 0 <= b < us.len() && (#[trigger] us[a]).0@ == (#[trigger] us[b]).0@
                implies a == b by {
            assert(us[a].0@ == es[a].0@ && us[b].0@ == es[b].0@);
            assert(es[a].0@ == es[b].0@);
        }
    }
    lemma_entries_map(es);
    lemma_entries_map(us);
    assert forall|k: Seq<char>| has_key(us, k) <==> has_key(es, k) by {
        if has_key(us, k) {
            let j = choose|j: int| 0 <= j < us.len() && (#[trigger] us[j]).0@ == k;
            assert(es[j].0@ == us[j].0@);
        }
        if has_key(es, k) {
            let j = choose|j: int| 0 <= j < es.len() && (#[trigger] es[j]).0@ == k;
            assert(es[j].0@ == us[j].0@);
        }
    }
    assert forall|k: Seq<char>| #[trigger] entries_map(us).contains_key(k) implies entries_map(us)[k]
        == entries_map(es).insert(e.0@, e.1)[k] by {
        let j0 = choose|j: int| 0 <= j < us.len() && (#[trigger] us[j]).0@ == k;
        let j = last_index_from(us, j0);
        assert(entries_map(us)[us[j].0@] == us[j].1);
        if j != i {
            assert(us[j] == es[j]);
            if k == e.0@ {
                assert(us[i].0@ == k);
                assert(es[j].0@ == us[j].0@);
            }
            assert forall|m: int| j < m < es.len() implies (#[trigger] es[m]).0@ != es[j].0@ by {
                assert(us[m].0@ == es[m].0@);
            }
            assert(is_last_of_key(es, j));
            assert(entries_map(es)[es[j].0@] == es[j].1);
        }
    }
    assert(entries_map(us) =~= entries_map(es).insert(e.0@, e.1));
}

/// The last entry whose key is that of entry `i`.
pub proof fn last_index_from(es: Seq<(String, Value)>, i: int) -> (r: int)
    requires
        0 <= i < es.len(),
    ensures
        is_last_of_key(es, r),
        es[r].0@ == es[i].0@,
        i <= r,
    decreases es.len() - i,
{
    if exists|j: int| i < j < es.len() && (#[trigger] es[j]).0@ == es[i].0@ {
        let j = choose|j: int| i < j < es.len() && (#[trigger] es[j]).0@ == es[i].0@;
        last_index_from(es, j)
    } else {
        i
    }
}

/// Appending an entry inserts it into the map.
pub proof fn lemma_entries_map_push(es: Seq<(String, Value)>, e: (String, Value))
    ensures
        entries_map(es.push(e)) == entries_map(es).insert(e.0@, e.1),
        !has_key(es, e.0@) && keys_unique(es) ==> keys_unique(es.push(e)),
{
    assert(es.push(e).drop_last() =~= es);
    let ps = es.push(e);
    if !has_key(es, e.0@) && keys_unique(es) {
        assert forall|a: int, b: int|
            0 <= a < ps.len() && 0 <= b < ps.len() && (#[trigger] ps[a]).0@ == (#[trigger] ps[b]).0@
                implies a == b by {
            if a < es.len() {
                assert(ps[a] == es[a]);
            }
            if b < es.len() {
                assert(ps[b] == es[b]);
            }
        }
    }
}

impl Table {
    /// Keys are unique.
    pub open spec fn wf(&self) -> bool {
        keys_unique(self.entries@)
    }

    /// The table as a map from key to value.
    pub open spec fn view(&self) -> Map<Seq<char>, Value> {
        entries_map(self.entries@)
    }

    /// An empty table.
    pub fn new() -> (r: Table)
        ensures
            r.wf(),
            r@ == Map::<Seq<char>, Value>::empty(),
    {
        Table { entries: Vec::new() }
    }

    /// The position of the last entry under `key`, if there is one.
    pub fn find(&self, key: &String) -> (r: Option<usize>)
        ensures
            match r {
                Some(i) => is_last_of_key(self.entries@, i as int) && self.entries@[i as int].0@
                    == key@,
                None => !has_key(self.entries@, key@),
            },
    {
        let mut i: usize = self.entries.len();
        while i > 0
            invariant
                i <= self.entries@.len(),
                forall|j: int| i <= j < self.entries@.len() ==> (#[trigger] self.entries@[j]).0@ != key@,
            decreases i,
        {
            if self.entries[i - 1].0 == *key {
                return Some(i - 1);
            }
            i = i - 1;
        }
        None
    }

    /// The table under `key`: `Missing` where the key is absent, `WrongType`
    /// where its value is not a table.
    pub fn get_table(&self, key: &String) -> (r: Result<&Table, ShapeError>)
        ensures
            r == Err::<&Table, ShapeError>(ShapeError::Missing) <==> !self@.contains_key(key@),
            r is Ok <==> self@.contains_key(key@) && self@[key@] is Table,
            r is Ok ==> self@[key@] == Value::Table(*r->Ok_0),
    {
        proof {
            lemma_entries_map(self.entries@);
        }
        match self.find(key) {
            None => Err(ShapeError::Missing),
            Some(i) => match &self.entries[i].1 {
                Value::Table(t) => Ok(t),
                _ => Err(ShapeError::WrongType),
            },
        }
    }

    /// The array under `key`: `Missing` where the key is absent, `WrongType`
    /// where its value is not an array.
    pub fn get_array(&self, key: &String) -> (r: Result<&Vec<Value>, ShapeError>)
        ensures
            r == Err::<&Vec<Value>, ShapeError>(ShapeError::Missing) <==> !self@.contains_key(
                key@,
            ),
            r is Ok <==> self@.contains_key(key@) && self@[key@] is Array,
            r is Ok ==> self@[key@] == Value::Array(*r->Ok_0),
    {
        proof {
            lemma_entries_map(self.entries@);
        }
        match self.find(key) {
            None => Err(ShapeError::Missing),
            Some(i) => match &self.entries[i].1 {
                Value::Array(a) => Ok(a),
                _ => Err(ShapeError::WrongType),
            },
        }
    }
}

} // verus!
