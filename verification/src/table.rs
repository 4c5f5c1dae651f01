//! A small ordered table keyed by names. It holds the files of an output
//! tree and the renames of an extraction: a name occurs once, and a name
//! that is put again keeps its place.

use vstd::prelude::*;
use vstd::string::*;

verus! {

/// The position of the first row of `rows` under `key`.
pub open spec fn index_of<V>(rows: Seq<(Seq<char>, V)>, key: Seq<char>) -> Option<int>
    decreases rows.len(),
{
    if rows.len() == 0 {
        None
    } else {
        match index_of(rows.drop_last(), key) {
            Some(i) => Some(i),
            None => if rows.last().0 == key {
                Some(rows.len() - 1)
            } else {
                None
            },
        }
    }
}

/// What `rows` holds under `key`.
pub open spec fn lookup<V>(rows: Seq<(Seq<char>, V)>, key: Seq<char>) -> Option<V> {
    match index_of(rows, key) {
        Some(i) => Some(rows[i].1),
        None => None,
    }
}

/// `rows` with `value` under `key`: in the place of the row that was under
/// `key`, or else at the end.
pub open spec fn put<V>(rows: Seq<(Seq<char>, V)>, key: Seq<char>, value: V) -> Seq<
    (Seq<char>, V),
> {
    match index_of(rows, key) {
        Some(i) => rows.update(i, (key, value)),
        None => rows.push((key, value)),
    }
}

/// `rows` without the row under `key`.
pub open spec fn without<V>(rows: Seq<(Seq<char>, V)>, key: Seq<char>) -> Seq<(Seq<char>, V)> {
    match index_of(rows, key) {
        Some(i) => rows.remove(i),
        None => rows,
    }
}

/// No two rows of `rows` stand under one key.
pub open spec fn distinct_keys<V>(rows: Seq<(Seq<char>, V)>) -> bool {
    forall|i: int, j: int| 0 <= i < j < rows.len() ==> rows[i].0 != rows[j].0
}

/// `index_of` gives the first row under the key, and none exactly where no
/// row stands under it.
pub proof fn lemma_index_of<V>(rows: Seq<(Seq<char>, V)>, key: Seq<char>)
    ensures
        match index_of(rows, key) {
            Some(i) => 0 <= i < rows.len() && rows[i].0 == key && forall|j: int|
                0 <= j < i ==> rows[j].0 != key,
            None => forall|j: int| 0 <= j < rows.len() ==> rows[j].0 != key,
        },
    decreases rows.len(),
{
    if rows.len() > 0 {
        let front = rows.drop_last();
        lemma_index_of(front, key);
        assert(forall|j: int| 0 <= j < front.len() ==> front[j] == rows[j]);
    }
}

/// The row at `at` is the first under `key`.
pub proof fn lemma_index_of_first<V>(rows: Seq<(Seq<char>, V)>, key: Seq<char>, at: int)
    requires
        0 <= at < rows.len(),
        rows[at].0 == key,
        forall|j: int| 0 <= j < at ==> rows[j].0 != key,
    ensures
        index_of(rows, key) == Some(at),
{
    lemma_index_of(rows, key);
}

/// Putting a value keeps the keys distinct.
pub proof fn lemma_put_distinct<V>(rows: Seq<(Seq<char>, V)>, key: Seq<char>, value: V)
    requires
        distinct_keys(rows),
    ensures
        distinct_keys(put(rows, key, value)),
{
    lemma_index_of(rows, key);
}

/// Taking a row out keeps the keys distinct.
pub proof fn lemma_without_distinct<V>(rows: Seq<(Seq<char>, V)>, key: Seq<char>)
    requires
        distinct_keys(rows),
    ensures
        distinct_keys(without(rows, key)),
{
    lemma_index_of(rows, key);
}

/// What was put under a key is found under it.
pub proof fn lemma_lookup_put<V>(rows: Seq<(Seq<char>, V)>, key: Seq<char>, value: V)
    ensures
        lookup(put(rows, key, value), key) == Some(value),
{
    lemma_index_of(rows, key);
    match index_of(rows, key) {
        Some(i) => lemma_index_of_first(put(rows, key, value), key, i),
        None => lemma_index_of_first(put(rows, key, value), key, rows.len() as int),
    }
}

/// Putting a value under one key leaves what stands under another.
pub proof fn lemma_lookup_put_other<V>(
    rows: Seq<(Seq<char>, V)>,
    key: Seq<char>,
    value: V,
    other: Seq<char>,
)
    requires
        other != key,
    ensures
        lookup(put(rows, key, value), other) == lookup(rows, other),
{
    let after = put(rows, key, value);
    lemma_index_of(rows, key);
    lemma_index_of(rows, other);
    lemma_index_of(after, other);
    match index_of(rows, other) {
        Some(j) => {
            lemma_index_of_first(after, other, j);
        },
        None => {
            if index_of(after, other) is Some {
                let k = index_of(after, other).unwrap();
                assert(after[k].0 == other);
                if k < rows.len() {
                    assert(rows[k].0 == other);
                }
            }
        },
    }
}

/// Taking out the row under one key leaves what stands under another.
pub proof fn lemma_lookup_without_other<V>(
    rows: Seq<(Seq<char>, V)>,
    key: Seq<char>,
    other: Seq<char>,
)
    requires
        other != key,
    ensures
        lookup(without(rows, key), other) == lookup(rows, other),
{
    let after = without(rows, key);
    lemma_index_of(rows, key);
    lemma_index_of(rows, other);
    lemma_index_of(after, other);
    match index_of(rows, key) {
        None => {},
        Some(i) => {
            match index_of(rows, other) {
                Some(j) => {
                    let moved = if j < i {
                        j
                    } else {
                        j - 1
                    };
                    assert(after[moved] == rows[j]);
                    assert forall|k: int| 0 <= k < moved implies after[k].0 != other by {
                        if k < i {
                            assert(after[k] == rows[k]);
                        } else {
                            assert(after[k] == rows[k + 1]);
                        }
                    }
                    lemma_index_of_first(after, other, moved);
                },
                None => {
                    if index_of(after, other) is Some {
                        let k = index_of(after, other).unwrap();
                        if k < i {
                            assert(after[k] == rows[k]);
                        } else {
                            assert(after[k] == rows[k + 1]);
                        }
                    }
                },
            }
        },
    }
}

/// Nothing stands under a key whose row was taken out of a table with
/// distinct keys.
pub proof fn lemma_lookup_without<V>(rows: Seq<(Seq<char>, V)>, key: Seq<char>)
    requires
        distinct_keys(rows),
    ensures
        lookup(without(rows, key), key) is None,
{
    let after = without(rows, key);
    lemma_index_of(rows, key);
    lemma_index_of(after, key);
    match index_of(rows, key) {
        None => {},
        Some(i) => {
            if index_of(after, key) is Some {
                let k = index_of(after, key).unwrap();
                if k < i {
                    assert(after[k] == rows[k]);
                } else {
                    assert(after[k] == rows[k + 1]);
                }
            }
        },
    }
}

/// An ordered table from names to values of type `V`.
#[derive(Debug)]
pub struct Table<V> {
    /// The rows, each a name and what stands under it.
    pub rows: Vec<(String, V)>,
}

impl<V: View> View for Table<V> {
    type V = Seq<(Seq<char>, V::V)>;

    open spec fn view(&self) -> Seq<(Seq<char>, V::V)> {
        Seq::new(self.rows@.len(), |i: int| (self.rows@[i].0@, self.rows@[i].1@))
    }
}

impl<V: View> Table<V> {
    /// The table is well formed: no name occurs twice in it.
    pub open spec fn well_formed(&self) -> bool {
        distinct_keys(self@)
    }

    /// The empty table.
    pub fn new() -> (table: Self)
        ensures
            table@ == Seq::<(Seq<char>, V::V)>::empty(),
            table.well_formed(),
    {
        let table = Table { rows: Vec::new() };
        assert(table@ =~= Seq::<(Seq<char>, V::V)>::empty());
        table
    }

    /// The number of rows.
    pub fn len(&self) -> (n: usize)
        ensures
            n == self@.len(),
    {
        self.rows.len()
    }

    /// The name of the row at `at`.
    pub fn key_at(&self, at: usize) -> (key: &String)
        requires
            at < self@.len(),
        ensures
            key@ == self@[at as int].0,
    {
        &self.rows[at].0
    }

    /// The value of the row at `at`.
    pub fn value_at(&self, at: usize) -> (value: &V)
        requires
            at < self@.len(),
        ensures
            value@ == self@[at as int].1,
    {
        &self.rows[at].1
    }

    /// The position of the row under `key`.
    pub fn position(&self, key: &String) -> (at: Option<usize>)
        ensures
            match at {
                Some(i) => index_of(self@, key@) == Some(i as int),
                None => index_of(self@, key@) is None,
            },
    {
        let mut i: usize = 0;
        while i < self.rows.len()
            invariant
                i <= self.rows.len(),
                forall|j: int| 0 <= j < i ==> self@[j].0 != key@,
            decreases self.rows.len() - i,
        {
            if self.rows[i].0 == *key {
                proof {
                    lemma_index_of_first(self@, key@, i as int);
                }
                return Some(i);
            }
            i += 1;
        }
        proof {
            lemma_index_of(self@, key@);
        }
        None
    }

    /// What stands under `key`.
    pub fn get(&self, key: &String) -> (value: Option<&V>)
        ensures
            match lookup(self@, key@) {
                Some(v) => value is Some && value.unwrap()@ == v,
                None => value is None,
            },
    {
        proof {
            lemma_index_of(self@, key@);
        }
        match self.position(key) {
            Some(i) => {
                assert(self@[i as int].1 == self.rows@[i as int].1@);
                Some(&self.rows[i].1)
            },
            None => None,
        }
    }

    /// Puts `value` under `key`, in the place of what stood there.
    pub fn put(&mut self, key: String, value: V)
        ensures
            final(self)@ == put(old(self)@, key@, value@),
            old(self).well_formed() ==> final(self).well_formed(),
    {
        proof {
            lemma_index_of(self@, key@);
            if self.well_formed() {
                lemma_put_distinct(self@, key@, value@);
            }
        }
        match self.position(&key) {
            Some(i) => {
                self.rows.set(i, (key, value));
            },
            None => {
                self.rows.push((key, value));
            },
        }
        assert(self@ =~= put(old(self)@, key@, value@));
    }

    /// Takes out the row under `key`, if there is one.
    pub fn remove(&mut self, key: &String)
        ensures
            final(self)@ == without(old(self)@, key@),
            old(self).well_formed() ==> final(self).well_formed(),
    {
        proof {
            lemma_index_of(self@, key@);
            if self.well_formed() {
                lemma_without_distinct(self@, key@);
            }
        }
        match self.position(key) {
            Some(i) => {
                self.rows.remove(i);
                assert(self@ =~= old(self)@.remove(i as int));
            },
            None => {},
        }
    }
}

} // verus!
