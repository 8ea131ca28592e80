//! The in-memory key-value store: point lookups, point writes, point deletes,
//! and a full-contents export for persistence.

use vstd::prelude::*;
use crate::assoc::{map_of, distinct_keys, lemma_map_of_get, lemma_map_of_absent,
    lemma_map_of_remove, lemma_map_of_push};
use crate::strutil::str_eq;
use crate::value::Value;

verus! {

/// The views of a sequence of owned entries.
pub open spec fn pair_views(es: Seq<(String, Value)>) -> Seq<(Seq<char>, Seq<char>)> {
    Seq::new(es.len(), |i: int| (es[i].0@, es[i].1@))
}

/// The current key-to-payload state. Keys are unique; absence of a key means
/// "not found", never "null value".
pub struct Store {
    entries: Vec<(String, Value)>,
}

impl Store {
    /// The entries as they stand, keys before payloads, in insertion order.
    pub closed spec fn entry_views(&self) -> Seq<(Seq<char>, Seq<char>)> {
        pair_views(self.entries@)
    }

    /// Each key carried by exactly one entry.
    pub open spec fn wf(&self) -> bool {
        distinct_keys(self.entry_views())
    }

    /// Creates an empty store.
    pub fn new() -> (s: Store)
        ensures
            s.wf(),
            s@ == Map::<Seq<char>, Seq<char>>::empty(),
            s.entry_views() == Seq::<(Seq<char>, Seq<char>)>::empty(),
    {
        let s = Store { entries: Vec::new() };
        proof {
            assert(s.entry_views() =~= Seq::<(Seq<char>, Seq<char>)>::empty());
        }
        s
    }

    /// The position of the entry carrying `key`, if one does.
    fn find_index(&self, key: &str) -> (r: Option<usize>)
        ensures
            match r {
                Some(i) => i < self.entry_views().len() && self.entry_views()[i as int].0
                    == key@,
                None => forall|j: int|
                    0 <= j < self.entry_views().len() ==> self.entry_views()[j].0 != key@,
            },
    {
        let mut i: usize = 0;
        while i < self.entries.len()
            invariant
                i <= self.entries.len(),
                forall|j: int| 0 <= j < i ==> self.entry_views()[j].0 != key@,
            decreases self.entries.len() - i,
        {
            if str_eq(self.entries[i].0.as_str(), key) {
                return Some(i);
            }
            i += 1;
        }
        None
    }

    /// Inserts or overwrites the entry for `key`. Always succeeds: overwrite
    /// is allowed, so no uniqueness violation is possible.
    pub fn put(&mut self, key: String, value: Value)
        requires
            old(self).wf(),
        ensures
            final(self).wf(),
            final(self)@ == old(self)@.insert(key@, value@),
    {
        let ghost pre = self.entry_views();
        match self.find_index(key.as_str()) {
            Some(i) => {
                proof {
                    lemma_map_of_remove(pre, i as int);
                }
                self.entries.remove(i);
                proof {
                    assert(self.entry_views() =~= pre.remove(i as int));
                    assert forall|j: int| 0 <= j < self.entry_views().len()
                        implies self.entry_views()[j].0 != key@ by {
                        let j0: int = if j < i { j } else { j + 1 };
                        assert(self.entry_views()[j] == pre[j0]);
                    }
                    assert forall|a: int, b: int|
                        0 <= a < b < self.entry_views().len()
                        implies self.entry_views()[a].0 != self.entry_views()[b].0 by {
                        let a0: int = if a < i { a } else { a + 1 };
                        let b0: int = if b < i { b } else { b + 1 };
                        assert(self.entry_views()[a] == pre[a0]);
                        assert(self.entry_views()[b] == pre[b0]);
                    }
                }
            },
            None => {},
        }
        let ghost mid = self.entry_views();
        proof {
            assert(distinct_keys(mid));
            assert(forall|j: int| 0 <= j < mid.len() ==> mid[j].0 != key@);
            lemma_map_of_absent(mid, key@);
            assert(map_of(mid) =~= old(self)@.remove(key@));
            lemma_map_of_push(mid, key@, value@);
        }
        self.entries.push((key, value));
        proof {
            assert(self.entry_views() =~= mid.push((key@, value@)));
            assert forall|a: int, b: int|
                0 <= a < b < self.entry_views().len()
                implies self.entry_views()[a].0 != self.entry_views()[b].0 by {
                assert(self.entry_views()[a] == mid.push((key@, value@))[a]);
                assert(self.entry_views()[b] == mid.push((key@, value@))[b]);
            }
            assert(self@ =~= old(self)@.insert(key@, value@));
        }
    }

    /// Returns a reference to the current payload for `key`, or `None` if the
    /// key is absent.
    pub fn get<'a>(&'a self, key: &str) -> (r: Option<&'a Value>)
        requires
            self.wf(),
        ensures
            match r {
                Some(v) => self@.contains_key(key@) && v@ == self@[key@],
                None => !self@.contains_key(key@),
            },
    {
        match self.find_index(key) {
            Some(i) => {
                proof {
                    lemma_map_of_get(self.entry_views(), i as int);
                }
                Some(&self.entries[i].1)
            },
            None => {
                proof {
                    lemma_map_of_absent(self.entry_views(), key@);
                }
                None
            },
        }
    }

    /// Removes the entry for `key` if present; reports whether one was.
    /// Deleting an absent key is not an error (the delete is idempotent).
    pub fn delete(&mut self, key: &str) -> (r: bool)
        requires
            old(self).wf(),
        ensures
            final(self).wf(),
            final(self)@ == old(self)@.remove(key@),
            r == old(self)@.contains_key(key@),
    {
        let ghost pre = self.entry_views();
        match self.find_index(key) {
            Some(i) => {
                proof {
                    lemma_map_of_get(pre, i as int);
                    lemma_map_of_remove(pre, i as int);
                }
                self.entries.remove(i);
                proof {
                    assert(self.entry_views() =~= pre.remove(i as int));
                    assert forall|a: int, b: int|
                        0 <= a < b < self.entry_views().len()
                        implies self.entry_views()[a].0 != self.entry_views()[b].0 by {
                        let a0: int = if a < i { a } else { a + 1 };
                        let b0: int = if b < i { b } else { b + 1 };
                        assert(self.entry_views()[a] == pre[a0]);
                        assert(self.entry_views()[b] == pre[b0]);
                    }
                }
                true
            },
            None => {
                proof {
                    lemma_map_of_absent(pre, key@);
                    assert(old(self)@ =~= old(self)@.remove(key@));
                }
                false
            },
        }
    }

    /// A consistent export of all entries, used by persistence.
    pub fn snapshot_entries(&self) -> (r: &Vec<(String, Value)>)
        ensures
            pair_views(r@) == self.entry_views(),
    {
        &self.entries
    }
}

impl View for Store {
    type V = Map<Seq<char>, Seq<char>>;

    open spec fn view(&self) -> Map<Seq<char>, Seq<char>> {
        map_of(self.entry_views())
    }
}

} // verus!
