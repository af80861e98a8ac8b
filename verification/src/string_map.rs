//! A map from text keys to values, kept as a list of entries.
use vstd::prelude::*;

use crate::text::{position_of, lemma_position_of, lemma_position_of_found};

verus! {

/// A map from text keys to values. Each key is listed once; a key is looked
/// up by its text.
pub struct StringMap<V> {
    entries: Vec<(String, V)>,
}

/// The key texts of a list of entries.
pub open spec fn entry_keys<V>(es: Seq<(String, V)>) -> Seq<Seq<char>> {
    es.map_values(|e: (String, V)| e.0@)
}

/// The map that a list of entries gives: each key to the value of its first entry.
pub open spec fn entries_map<V>(es: Seq<(String, V)>) -> Map<Seq<char>, V> {
    Map::new(
        |k: Seq<char>| entry_keys(es).contains(k),
        |k: Seq<char>| es[position_of(entry_keys(es), k)->0].1,
    )
}

impl<V> View for StringMap<V> {
    type V = Map<Seq<char>, V>;

    closed spec fn view(&self) -> Map<Seq<char>, V> {
        entries_map(self.entries@)
    }
}

/// Appending an entry with a new key leaves the other positions alone.
proof fn lemma_position_of_push(s: Seq<Seq<char>>, x: Seq<char>, k: Seq<char>)
    requires
        !s.contains(x),
    ensures
        position_of(s.push(x), k) == (if s.contains(k) {
            position_of(s, k)
        } else if k == x {
            Some(s.len() as int)
        } else {
            None::<int>
        }),
{
    let t = s.push(x);
    lemma_position_of_found(s, k);
    if s.contains(k) {
        let i = position_of(s, k)->0;
        assert forall|j: int| 0 <= j < i implies t[j] != k by {
            assert(t[j] == s[j]);
            if t[j] == k {
                first_index_least(s, k, i, j);
            }
        }
        lemma_position_of(t, k, i);
    } else if k == x {
        lemma_position_of(t, k, s.len() as int);
    } else {
        assert forall|j: int| 0 <= j < t.len() implies t[j] != k by {
            if j < s.len() {
                assert(t[j] == s[j]);
            }
        }
        lemma_position_of(t, k, t.len() as int);
    }
}

/// No index before the first position holds the key.
proof fn first_index_least(s: Seq<Seq<char>>, k: Seq<char>, i: int, j: int)
    requires
        position_of(s, k) == Some(i),
        0 <= j < s.len(),
        s[j] == k,
    ensures
        i <= j,
    decreases s.len(),
{
    if s.len() > 0 && s[0] != k {
        let t = s.drop_first();
        assert(j > 0);
        assert(t[j - 1] == k);
        first_index_least(t, k, i - 1, j - 1);
    }
}

impl<V> StringMap<V> {
    /// The empty map.
    pub fn new() -> (r: Self)
        ensures
            r@ == Map::<Seq<char>, V>::empty(),
    {
        let r = StringMap { entries: Vec::new() };
        assert(r@ =~= Map::<Seq<char>, V>::empty());
        r
    }

    /// Position of the entry for `k`.
    fn position(&self, k: &str) -> (r: Option<usize>)
        ensures
            match r {
                Some(i) => position_of(entry_keys(self.entries@), k@) == Some(i as int) && i
                    < self.entries@.len(),
                None => position_of(entry_keys(self.entries@), k@) is None,
            },
    {
        let ghost ks = entry_keys(self.entries@);
        let kc = String::from_str(k);
        for i in 0..self.entries.len()
            invariant
                ks == entry_keys(self.entries@),
                kc@ == k@,
                forall|j: int| 0 <= j < i ==> ks[j] != k@,
        {
            if self.entries[i].0 == kc {
                proof {
                    lemma_position_of(ks, k@, i as int);
                }
                return Some(i);
            }
        }
        proof {
            lemma_position_of(ks, k@, self.entries@.len() as int);
        }
        None
    }

    /// Whether `k` has an entry.
    pub fn contains_key(&self, k: &str) -> (r: bool)
        ensures
            r == self@.contains_key(k@),
    {
        proof {
            lemma_position_of_found(entry_keys(self.entries@), k@);
        }
        self.position(k).is_some()
    }

    /// The value of `k`, if it has one.
    pub fn get(&self, k: &str) -> (r: Option<&V>)
        ensures
            match r {
                Some(v) => self@.contains_key(k@) && *v == self@[k@],
                None => !self@.contains_key(k@),
            },
    {
        proof {
            lemma_position_of_found(entry_keys(self.entries@), k@);
        }
        match self.position(k) {
            Some(i) => Some(&self.entries[i].1),
            None => None,
        }
    }

    /// Sets the value of `k` to `v`.
    pub fn insert(&mut self, k: String, v: V)
        ensures
            final(self)@ == old(self)@.insert(k@, v),
    {
        let ghost old_entries = self.entries@;
        let ghost ks = entry_keys(old_entries);
        proof {
            lemma_position_of_found(ks, k@);
        }
        match self.position(k.as_str()) {
            Some(i) => {
                self.entries.set(i, (k, v));
                proof {
                    let ne = self.entries@;
                    assert(entry_keys(ne) =~= ks);
                    assert forall|q: Seq<char>| ks.contains(q) implies #[trigger] entries_map(ne)[q]
                        == entries_map(old_entries).insert(k@, v)[q] by {
                        lemma_position_of_found(ks, q);
                        let p = position_of(ks, q)->0;
                        if q != k@ {
                            assert(p != i);
                        }
                    }
                    assert(self@ =~= entries_map(old_entries).insert(k@, v));
                }
            },
            None => {
                self.entries.push((k, v));
                proof {
                    let ne = self.entries@;
                    assert(entry_keys(ne) =~= ks.push(k@));
                    assert forall|q: Seq<char>| #[trigger] entry_keys(ne).contains(q) implies position_of(entry_keys(ne), q) == (if ks.contains(q) {
                        position_of(ks, q)
                    } else {
                        Some(ks.len() as int)
                    }) by {
                        lemma_position_of_push(ks, k@, q);
                    }
                    assert forall|q: Seq<char>| entry_keys(ne).contains(q) implies #[trigger] entries_map(ne)[q]
                        == entries_map(old_entries).insert(k@, v)[q] by {
                        lemma_position_of_push(ks, k@, q);
                        lemma_position_of_found(ks, q);
                    }
                    assert forall|q: Seq<char>| #[trigger] entry_keys(ne).contains(q) == (ks.contains(q) || q == k@) by {
                        if ks.contains(q) {
                            let j = choose|j: int| 0 <= j < ks.len() && ks[j] == q;
                            assert(entry_keys(ne)[j] == q);
                        }
                        if q == k@ {
                            assert(entry_keys(ne)[ks.len() as int] == q);
                        }
                        if entry_keys(ne).contains(q) {
                            let j = choose|j: int| 0 <= j < entry_keys(ne).len() && entry_keys(ne)[j] == q;
                            if j < ks.len() {
                                assert(ks[j] == q);
                            }
                        }
                    }
                    assert(self@ =~= entries_map(old_entries).insert(k@, v));
                }
            },
        }
    }

    /// The entries, each key once.
    pub fn entries(&self) -> (r: &Vec<(String, V)>)
        ensures
            entries_map(r@) == self@,
    {
        &self.entries
    }
}

} // verus!
